//! The external collaborators the pipeline consumes: the text-to-tree
//! parser, the element scan of a parsed tree, the tree printer (plain and
//! with the elements reordered), the newline resolution, and the
//! parse-diagnostic formatter.
//!
//! Each item here is trusted: its contract states what the outside crate's
//! source shows, and the verified pipeline is proved against these
//! contracts alone.

use vstd::prelude::*;
use vstd::string::*;
use crate::conventions::Elem;
use crate::conventions::ElemInfo;
use crate::conventions::ems;
use crate::configuration::NewLineKind;
use taplo::syntax::SyntaxKind;
use taplo::rowan::NodeOrToken;

verus! {

/// An opaque handle to a parsed document tree.  The tree type of the
/// outside parser cannot be declared to the verifier (its declaration
/// needs an outside trait bound), so the handle hides it whole; the
/// names `doc_text` and `elems_of` and the trusted items below say
/// everything the pipeline knows about it.
#[verifier::external_body]
pub struct Doc {
    node: taplo::syntax::SyntaxNode,
}

/// What the parse capability reports for invalid text: the error span, in
/// byte offsets into the source, and the parser's message.
pub struct RawParseError {
    pub start: usize,
    pub end: usize,
    pub message: String,
}

/// Whether the parse capability accepts the text; parsing is a function of
/// the text alone.
pub uninterp spec fn parse_ok(text: Seq<char>) -> bool;

/// The span and message of the first error the parse capability reports
/// for invalid text.
pub uninterp spec fn parse_err_of(text: Seq<char>) -> (int, int, Seq<char>);

/// The source text a parsed tree covers.
pub uninterp spec fn doc_text(d: Doc) -> Seq<char>;

/// The top-level elements of the tree parsed from the text: for each
/// element, whether it is a node, whether it is an entry, its text, and —
/// for an entry — its key.
pub uninterp spec fn elems_of(text: Seq<char>) -> Seq<Elem>;

/// What the print capability produces for a tree holding these top-level
/// elements, under the given column width, indent string and newline
/// choice.  A parsed element's subtree is determined by its source text,
/// so the element records determine the printed tree.
pub uninterp spec fn printed_elems(
    elems: Seq<Elem>,
    column_width: u32,
    indent: Seq<char>,
    crlf: bool,
) -> Seq<char>;

/// The elements of `elems` picked out in the given order.
pub open spec fn select_elems(elems: Seq<Elem>, order: Seq<usize>) -> Seq<Elem> {
    order.map_values(|ix: usize| elems[ix as int])
}

/// The human-readable diagnostic built from an error span, a message and
/// the source text.
pub uninterp spec fn diagnostic_of(
    start: int,
    end: int,
    message: Seq<char>,
    text: Seq<char>,
) -> Seq<char>;

/// Whether `needle` occurs contiguously inside `hay`.
pub open spec fn contains_seq(hay: Seq<char>, needle: Seq<char>) -> bool {
    exists|i: int|
        0 <= i && i + needle.len() <= hay.len() && #[trigger] hay.subrange(i, i + needle.len())
            == needle
}

/// The texts of a run of elements, concatenated in order.
pub open spec fn concat_texts_spec(s: Seq<Elem>) -> Seq<char>
    decreases s.len(),
{
    if s.len() == 0 {
        Seq::empty()
    } else {
        concat_texts_spec(s.drop_last()) + s.last().text
    }
}

/// Relies on taplo::parser::parse: parsing is a function of the text
/// alone; the tree it builds covers the input text exactly; errors are
/// collected rather than thrown, and an error's span is a well-formed
/// range given in byte offsets.  The parser indexes text with 32-bit
/// offsets and aborts beyond them, so the byte length must fit one.
#[verifier::external_body]
pub(crate) fn parse_doc(text: &str) -> (r: Result<Doc, RawParseError>)
    requires
        text.spec_bytes().len() <= u32::MAX,
    ensures
        r is Ok <==> parse_ok(text@),
        r matches Ok(d) ==> doc_text(d) == text@,
        r matches Err(e) ==> (e.start as int, e.end as int, e.message@) == parse_err_of(text@)
            && e.start <= e.end,
{
    let result = taplo::parser::parse(text);
    match result.errors.first() {
        Some(err) => Err(RawParseError {
            start: err.range.start().into(),
            end: err.range.end().into(),
            message: err.message.clone(),
        }),
        None => Ok(Doc { node: result.into_syntax() }),
    }
}

/// Relies on rowan's children_with_tokens, kind and text, and on taplo's
/// syntax kinds: one record for each top-level element of the tree, in
/// order, numbered by position; a node is an entry when its kind is
/// ENTRY, and an entry's key is the text of the IDENT token inside its
/// KEY child.  The records cover the tree's text exactly, and the scan is
/// a function of the tree.
#[verifier::external_body]
pub(crate) fn scan_root(d: &Doc) -> (v: Vec<ElemInfo>)
    ensures
        ems(v@) == elems_of(doc_text(*d)),
        concat_texts_spec(ems(v@)) == doc_text(*d),
        forall|q: int| 0 <= q < ems(v@).len() ==> #[trigger] ems(v@)[q].index == q,
{
    d.node.children_with_tokens().enumerate().map(|(ix, el)| match el {
        NodeOrToken::Node(n) => ElemInfo {
            is_node: true,
            is_entry: n.kind() == SyntaxKind::ENTRY,
            key: n.children().find(|c| c.kind() == SyntaxKind::KEY)
                .and_then(|k| k.children_with_tokens().filter_map(|e| e.into_token())
                    .find(|t| t.kind() == SyntaxKind::IDENT).map(|t| t.text().to_string()))
                .unwrap_or_default(),
            text: n.text().to_string(),
            index: ix,
        },
        NodeOrToken::Token(t) =>
            ElemInfo { is_node: false, is_entry: false, text: t.text().to_string(), key: String::new(), index: ix },
    }).collect()
}

/// Relies on taplo::formatter::format_syntax: a deterministic layout of a
/// parsed tree under the given options; only the column width, the indent
/// string and the newline choice vary here, every other option keeps its
/// default.
#[verifier::external_body]
pub(crate) fn print_doc(d: &Doc, column_width: u32, indent: &str, crlf: bool) -> (r: String)
    ensures
        r@ == printed_elems(elems_of(doc_text(*d)), column_width, indent@, crlf),
{
    let options = taplo::formatter::Options {
        column_width: column_width as usize,
        indent_string: indent.to_string(),
        crlf,
        ..Default::default()
    };
    taplo::formatter::format_syntax(d.node.clone(), options)
}

/// Relies on rowan's green-tree assembly and taplo::formatter::
/// format_syntax: a new root is built whose children are this document's
/// top-level elements picked in the given order (green subtrees are
/// position-independent), and that tree is printed; only the column
/// width, the indent string and the newline choice vary, every other
/// option keeps its default.
#[verifier::external_body]
pub(crate) fn print_reordered(
    d: &Doc,
    order: &Vec<usize>,
    column_width: u32,
    indent: &str,
    crlf: bool,
) -> (r: String)
    requires
        forall|q: int|
            0 <= q < order@.len() ==> #[trigger] order@[q] < elems_of(doc_text(*d)).len(),
    ensures
        r@ == printed_elems(
            select_elems(elems_of(doc_text(*d)), order@),
            column_width,
            indent@,
            crlf,
        ),
{
    let children: Vec<taplo::syntax::SyntaxElement> = d.node.children_with_tokens().collect();
    let picked = order.iter().map(|ix| match &children[*ix] {
        NodeOrToken::Node(n) => NodeOrToken::Node(n.green().into_owned()),
        NodeOrToken::Token(t) => NodeOrToken::Token(t.green().to_owned()),
    }).collect::<Vec<_>>();
    let green = taplo::rowan::GreenNode::new(d.node.green().kind(), picked);
    let options = taplo::formatter::Options {
        column_width: column_width as usize,
        indent_string: indent.to_string(),
        crlf,
        ..Default::default()
    };
    taplo::formatter::format_syntax(taplo::syntax::SyntaxNode::new_root(green), options)
}

/// Relies on dprint_core::configuration::resolve_new_line_kind: `\n` for
/// LineFeed, `\r\n` for CarriageReturnLineFeed, and for Auto the kind of
/// the last newline already in the text, `\n` when there is none.
#[verifier::external_body]
pub(crate) fn resolve_new_line_text(text: &str, kind: NewLineKind) -> (r: String)
    ensures
        r@ == crate::format_text::newline_for(text@, kind),
{
    let k = match kind {
        NewLineKind::Auto => dprint_core::configuration::NewLineKind::Auto,
        NewLineKind::LineFeed => dprint_core::configuration::NewLineKind::LineFeed,
        NewLineKind::CarriageReturnLineFeed => {
            dprint_core::configuration::NewLineKind::CarriageReturnLineFeed
        },
    };
    dprint_core::configuration::resolve_new_line_kind(text, k).to_string()
}

/// Relies on dprint_core's format_diagnostic (formatting::utils::
/// string_utils): a function of its arguments that prefixes the position,
/// carries the message verbatim, and quotes the text around the span; it
/// slices the text at the span's offsets, so they must lie inside it on
/// character boundaries.
#[verifier::external_body]
pub(crate) fn format_parse_diagnostic(
    start: usize,
    end: usize,
    message: &str,
    text: &str,
) -> (r: String)
    requires
        start <= end,
        end as int <= text.spec_bytes().len(),
        vstd::utf8::is_char_boundary(text.spec_bytes(), start as int),
        vstd::utf8::is_char_boundary(text.spec_bytes(), end as int),
    ensures
        r@ == diagnostic_of(start as int, end as int, message@, text@),
        contains_seq(r@, message@),
{
    dprint_core::formatting::utils::string_utils::format_diagnostic(
        Some((start, end)),
        message,
        text,
    )
}

} // verus!
