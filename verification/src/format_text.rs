//! Pipeline driver: parse, optionally normalize a package manifest, and
//! print under the effective configuration.

use vstd::prelude::*;
use vstd::string::*;
use crate::capabilities::RawParseError;
use crate::capabilities::contains_seq;
use crate::capabilities::diagnostic_of;
use crate::capabilities::doc_text;
use crate::capabilities::elems_of;
use crate::capabilities::format_parse_diagnostic;
use crate::capabilities::parse_doc;
use crate::capabilities::parse_err_of;
use crate::capabilities::parse_ok;
use crate::capabilities::print_doc;
use crate::capabilities::print_reordered;
use crate::capabilities::printed_elems;
use crate::capabilities::resolve_new_line_text;
use crate::capabilities::scan_root;
use crate::capabilities::select_elems;
use crate::configuration::Configuration;
use crate::configuration::NewLineKind;
use crate::conventions::ElemInfo;
use crate::conventions::apply_cargo_toml_conventions;
use crate::conventions::apply_conventions_spec;
use crate::conventions::ems;
use crate::conventions::from_doc;
use crate::conventions::lemma_conv_from_doc;

verus! {

/// The one fatal failure of the pipeline: the text is not a valid
/// document.  The message quotes the offending source region.
#[derive(Debug)]
pub struct ParseError {
    pub message: String,
}

/// The newline text the Auto kind resolves to: the kind of the last
/// newline already in the text, `\n` when there is none.
pub open spec fn auto_newline(text: Seq<char>) -> Seq<char>
    decreases text.len(),
{
    if text.len() == 0 {
        "\n"@
    } else if text.last() == '\n' {
        if text.len() >= 2 && text[text.len() - 2] == '\r' {
            "\r\n"@
        } else {
            "\n"@
        }
    } else {
        auto_newline(text.drop_last())
    }
}

/// The newline text a configuration's kind resolves to against a source.
pub open spec fn newline_for(text: Seq<char>, kind: NewLineKind) -> Seq<char> {
    match kind {
        NewLineKind::LineFeed => "\n"@,
        NewLineKind::CarriageReturnLineFeed => "\r\n"@,
        NewLineKind::Auto => auto_newline(text),
    }
}

/// Whether the resolved newline for this source and kind is `\r\n`.
pub open spec fn crlf_for(text: Seq<char>, kind: NewLineKind) -> bool {
    newline_for(text, kind) == "\r\n"@
}

/// `n` spaces.
pub open spec fn spaces(n: int) -> Seq<char>
    decreases n,
{
    if n <= 0 {
        Seq::empty()
    } else {
        spaces(n - 1) + " "@
    }
}

/// The indent string the printer is handed: one tab, or `width` spaces.
pub open spec fn indent_text(use_tabs: bool, width: u8) -> Seq<char> {
    if use_tabs {
        "\t"@
    } else {
        spaces(width as int)
    }
}

/// A path denotes the package manifest when its final component is
/// exactly the manifest filename.
pub open spec fn is_manifest_path(path: Seq<char>) -> bool {
    path.len() >= 10 && path.subrange(path.len() - 10, path.len() as int) == "Cargo.toml"@ && (
    path.len() == 10 || path[path.len() - 11] == '/')
}

/// Whether an error span can be quoted from the source: it lies inside
/// the text, in order, on character boundaries.
pub open spec fn span_quotable(start: int, end: int, text: &str) -> bool {
    0 <= start <= end <= text.spec_bytes().len() && vstd::utf8::is_char_boundary(
        text.spec_bytes(),
        start,
    ) && vstd::utf8::is_char_boundary(text.spec_bytes(), end)
}

/// The exact error message the pipeline reports for invalid text: the
/// formatted diagnostic for the parser's first error, or — only where the
/// reported span cannot be quoted — the parser's bare message.
pub open spec fn parse_error_message(text: &str) -> Seq<char> {
    let pe = parse_err_of(text@);
    if span_quotable(pe.0, pe.1, text) {
        diagnostic_of(pe.0, pe.1, pe.2, text@)
    } else {
        pe.2
    }
}

/// Checks whether the path's final component is the manifest filename.
fn check_manifest_path(path: &str) -> (r: bool)
    ensures
        r == is_manifest_path(path@),
{
    proof {
        reveal_strlit("Cargo.toml");
    }
    let n = path.unicode_len();
    let target = "Cargo.toml";
    let tn = target.unicode_len();
    if n < tn {
        return false;
    }
    let mut q: usize = 0;
    while q < tn
        invariant
            n == path@.len(),
            tn == target@.len(),
            tn <= n,
            target@ == "Cargo.toml"@,
            0 <= q <= tn,
            forall|j: int| 0 <= j < q ==> path@[n - tn + j] == target@[j],
        decreases tn - q,
    {
        let pc = path.get_char(n - tn + q);
        let tc = target.get_char(q);
        if pc != tc {
            proof {
                assert(path@.subrange(n - tn, n as int)[q as int] == path@[n - tn + q]);
            }
            return false;
        }
        q = q + 1;
    }
    proof {
        assert(path@.subrange(n - tn, n as int) =~= "Cargo.toml"@);
    }
    if n == tn {
        return true;
    }
    let sep = path.get_char(n - tn - 1);
    sep == '/'
}

/// The original positions of a run of reordered elements.
fn collect_order(v: &Vec<ElemInfo>) -> (o: Vec<usize>)
    ensures
        o@.len() == v@.len(),
        forall|q: int| 0 <= q < o@.len() ==> o@[q] == ems(v@)[q].index,
{
    let n = v.len();
    let mut o: Vec<usize> = Vec::new();
    let mut t: usize = 0;
    while t < n
        invariant
            n == v@.len(),
            0 <= t <= n,
            o@.len() == t,
            forall|q: int| 0 <= q < t ==> o@[q] == ems(v@)[q].index,
        decreases n - t,
    {
        proof {
            assert(ems(v@)[t as int] == v@[t as int]@);
        }
        o.push(v[t].index);
        t = t + 1;
    }
    o
}

/// Builds the indent string: one tab, or `width` spaces.
fn make_indent(use_tabs: bool, width: u8) -> (s: String)
    ensures
        s@ == indent_text(use_tabs, width),
{
    if use_tabs {
        String::from_str("\t")
    } else {
        let mut s = String::new();
        let mut i: u8 = 0;
        while i < width
            invariant
                0 <= i <= width,
                s@ == spaces(i as int),
            decreases width - i,
        {
            s.append(" ");
            i = i + 1;
        }
        s
    }
}

/// The printer options derived from a configuration: the width, indent
/// and tab fields are taken verbatim, and the newline text resolves the
/// configured kind against the source text.
pub struct PrintOptions {
    pub indent_width: u8,
    pub max_width: u32,
    pub use_tabs: bool,
    pub new_line_text: String,
}

pub fn config_to_print_options(text: &str, config: &Configuration) -> (o: PrintOptions)
    ensures
        o.indent_width == config.indent_width,
        o.max_width == config.line_width,
        o.use_tabs == config.use_tabs,
        o.new_line_text@ == newline_for(text@, config.new_line_kind),
{
    PrintOptions {
        indent_width: config.indent_width,
        max_width: config.line_width,
        use_tabs: config.use_tabs,
        new_line_text: resolve_new_line_text(text, config.new_line_kind),
    }
}

/// Turns the parse capability's raw error into the pipeline's error: the
/// formatted diagnostic where the reported span can be quoted, else the
/// parser's bare message; either way the message carries the parser's
/// message.
fn make_parse_error(e: RawParseError, text: &str) -> (r: ParseError)
    requires
        e.start <= e.end,
        text.spec_bytes().len() <= usize::MAX,
        (e.start as int, e.end as int, e.message@) == parse_err_of(text@),
    ensures
        r.message@ == parse_error_message(text),
        contains_seq(r.message@, parse_err_of(text@).2),
{
    if e.end <= text.len() && text.is_char_boundary(e.start) && text.is_char_boundary(e.end) {
        let message = format_parse_diagnostic(e.start, e.end, e.message.as_str(), text);
        proof {
            assert(span_quotable(e.start as int, e.end as int, text));
        }
        ParseError { message }
    } else {
        proof {
            assert(!span_quotable(e.start as int, e.end as int, text));
            assert(contains_seq(e.message@, e.message@)) by {
                let w: int = 0;
                assert(e.message@.subrange(w, w + e.message@.len()) =~= e.message@);
            }
        }
        ParseError { message: e.message }
    }
}

/// Formats a document: parse the text, apply the structural conventions
/// when the path denotes the package manifest, and print under the
/// configuration.  Succeeds exactly when the text parses; a failure is a
/// `ParseError` carrying the formatted diagnostic for the parser's first
/// error.  The convention engine works on the parsed tree's elements,
/// which the printer receives reordered; the text is parsed only once.
pub fn format_text(file_path: &str, text: &str, config: &Configuration) -> (r: Result<
    String,
    ParseError,
>)
    requires
        text.spec_bytes().len() <= u32::MAX,
    ensures
        r is Ok <==> parse_ok(text@),
        parse_ok(text@) && !is_manifest_path(file_path@) ==> (r matches Ok(s) && s@
            == printed_elems(
            elems_of(text@),
            config.line_width,
            indent_text(config.use_tabs, config.indent_width),
            crlf_for(text@, config.new_line_kind),
        )),
        parse_ok(text@) && is_manifest_path(file_path@) ==> (r matches Ok(s) && s@
            == printed_elems(
            apply_conventions_spec(elems_of(text@)),
            config.line_width,
            indent_text(config.use_tabs, config.indent_width),
            crlf_for(text@, config.new_line_kind),
        )),
        !parse_ok(text@) ==> (r matches Err(e) && e.message@ == parse_error_message(text)
            && contains_seq(e.message@, parse_err_of(text@).2)),
{
    let manifest = check_manifest_path(file_path);
    let node = match parse_doc(text) {
        Err(e) => {
            return Err(make_parse_error(e, text));
        },
        Ok(node) => node,
    };

    let options = config_to_print_options(text, config);
    let crlf_text = String::from_str("\r\n");
    let crlf = options.new_line_text.eq(&crlf_text);
    let indent = make_indent(options.use_tabs, options.indent_width);

    if manifest {
        let elems = scan_root(&node);
        let reordered = apply_cargo_toml_conventions(&elems);
        let order = collect_order(&reordered);
        proof {
            let m = elems_of(text@);
            let conv = apply_conventions_spec(m);
            assert(ems(elems@) == m);
            assert(ems(reordered@) == conv);
            assert(from_doc(m, m));
            lemma_conv_from_doc(m, 0, m);
            assert forall|q: int| 0 <= q < order@.len() implies #[trigger] order@[q]
                < elems_of(doc_text(node)).len() by {
                assert(order@[q] == conv[q].index);
            }
            assert(select_elems(elems_of(doc_text(node)), order@) =~= conv) by {
                assert forall|q: int| 0 <= q < order@.len() implies select_elems(m, order@)[q]
                    == conv[q] by {
                    assert(order@[q] == conv[q].index);
                    assert(m[conv[q].index as int] == conv[q]);
                }
            }
        }
        Ok(print_reordered(&node, &order, options.max_width, indent.as_str(), crlf))
    } else {
        Ok(print_doc(&node, options.max_width, indent.as_str(), crlf))
    }
}

} // verus!
