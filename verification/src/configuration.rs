//! Configuration model, layered resolver and fluent builder.
//!
//! A raw override map (string keys to tagged values) is merged with a
//! host-supplied global configuration and built-in defaults into one
//! effective `Configuration`.  Unrecognized or invalid overrides are
//! reported as non-fatal diagnostics; resolution always completes.

use vstd::prelude::*;
use vstd::string::*;

verus! {

/// The kind of newline the printer emits.
#[derive(Clone, Copy, PartialEq, Eq, Debug, Structural)]
pub enum NewLineKind {
    /// Use the kind of the last newline already present in the source.
    Auto,
    /// Always use `\n`.
    LineFeed,
    /// Always use `\r\n`.
    CarriageReturnLineFeed,
}

/// The effective formatting configuration; every field is always populated.
#[derive(Clone, Copy, PartialEq, Eq, Debug, Structural)]
pub struct Configuration {
    pub line_width: u32,
    pub use_tabs: bool,
    pub indent_width: u8,
    pub new_line_kind: NewLineKind,
}

/// Cross-format configuration supplied by the embedding host; each field is
/// optional and, when present, is used before the built-in default.
#[derive(Clone, Copy, Debug)]
pub struct GlobalConfiguration {
    pub line_width: Option<u32>,
    pub use_tabs: Option<bool>,
    pub indent_width: Option<u8>,
    pub new_line_kind: Option<NewLineKind>,
}

/// A tagged raw override value.
#[derive(Debug)]
pub enum ConfigValue {
    Str(String),
    Int(i32),
    Bool(bool),
}

/// An ordered map from option names to raw values; later inserts of an
/// existing key overwrite the value in place.
pub struct ConfigKeyMap {
    pub entries: Vec<(String, ConfigValue)>,
}

/// A non-fatal finding about one override entry.
#[derive(Debug)]
pub struct ConfigurationDiagnostic {
    pub property_name: String,
    pub message: String,
}

/// The resolver's result: a fully populated configuration plus diagnostics.
pub struct ResolveConfigurationResult {
    pub config: Configuration,
    pub diagnostics: Vec<ConfigurationDiagnostic>,
}

impl View for ConfigKeyMap {
    type V = Seq<(String, ConfigValue)>;

    open spec fn view(&self) -> Seq<(String, ConfigValue)> {
        self.entries@
    }
}

/// The value of the first entry whose key reads `k`, if any.
pub open spec fn lookup(s: Seq<(String, ConfigValue)>, k: Seq<char>) -> Option<ConfigValue>
    decreases s.len(),
{
    if s.len() == 0 {
        None
    } else if s[0].0@ == k {
        Some(s[0].1)
    } else {
        lookup(s.skip(1), k)
    }
}

/// Index of the first entry whose key reads `k`; `s.len()` when absent.
pub open spec fn key_index(s: Seq<(String, ConfigValue)>, k: Seq<char>) -> int
    decreases s.len(),
{
    if s.len() == 0 {
        0
    } else if s[0].0@ == k {
        0
    } else {
        1 + key_index(s.skip(1), k)
    }
}

pub open spec fn has_key(s: Seq<(String, ConfigValue)>, k: Seq<char>) -> bool {
    lookup(s, k) is Some
}

/// The four option names the resolver recognizes.
pub open spec fn known_key(k: Seq<char>) -> bool {
    ||| k == "lineWidth"@
    ||| k == "useTabs"@
    ||| k == "indentWidth"@
    ||| k == "newLineKind"@
}

pub open spec fn fallback_line_width(g: GlobalConfiguration) -> u32 {
    match g.line_width {
        Some(w) => w,
        None => 120u32,
    }
}

pub open spec fn fallback_use_tabs(g: GlobalConfiguration) -> bool {
    match g.use_tabs {
        Some(t) => t,
        None => false,
    }
}

pub open spec fn fallback_indent_width(g: GlobalConfiguration) -> u8 {
    match g.indent_width {
        Some(w) => w,
        None => 2u8,
    }
}

pub open spec fn fallback_new_line_kind(g: GlobalConfiguration) -> NewLineKind {
    match g.new_line_kind {
        Some(k) => k,
        None => NewLineKind::LineFeed,
    }
}

/// A `lineWidth` override is usable when it is a positive integer.
pub open spec fn resolved_line_width(m: Seq<(String, ConfigValue)>, g: GlobalConfiguration) -> u32 {
    match lookup(m, "lineWidth"@) {
        Some(ConfigValue::Int(n)) => if 1 <= n {
            n as u32
        } else {
            fallback_line_width(g)
        },
        Some(_) => fallback_line_width(g),
        None => fallback_line_width(g),
    }
}

pub open spec fn resolved_use_tabs(m: Seq<(String, ConfigValue)>, g: GlobalConfiguration) -> bool {
    match lookup(m, "useTabs"@) {
        Some(ConfigValue::Bool(b)) => b,
        Some(_) => fallback_use_tabs(g),
        None => fallback_use_tabs(g),
    }
}

/// An `indentWidth` override is usable when it is a positive integer that
/// fits in a byte.
pub open spec fn resolved_indent_width(m: Seq<(String, ConfigValue)>, g: GlobalConfiguration) -> u8 {
    match lookup(m, "indentWidth"@) {
        Some(ConfigValue::Int(n)) => if 1 <= n <= 255 {
            n as u8
        } else {
            fallback_indent_width(g)
        },
        Some(_) => fallback_indent_width(g),
        None => fallback_indent_width(g),
    }
}

pub open spec fn new_line_kind_of(s: Seq<char>) -> Option<NewLineKind> {
    if s == "auto"@ {
        Some(NewLineKind::Auto)
    } else if s == "lf"@ {
        Some(NewLineKind::LineFeed)
    } else if s == "crlf"@ {
        Some(NewLineKind::CarriageReturnLineFeed)
    } else {
        None
    }
}

pub open spec fn resolved_new_line_kind(
    m: Seq<(String, ConfigValue)>,
    g: GlobalConfiguration,
) -> NewLineKind {
    match lookup(m, "newLineKind"@) {
        Some(ConfigValue::Str(s)) => match new_line_kind_of(s@) {
            Some(k) => k,
            None => fallback_new_line_kind(g),
        },
        Some(_) => fallback_new_line_kind(g),
        None => fallback_new_line_kind(g),
    }
}

/// All four fields of the configuration that resolving `m` against `g` yields.
pub open spec fn resolved_configuration(
    m: Seq<(String, ConfigValue)>,
    g: GlobalConfiguration,
) -> Configuration {
    Configuration {
        line_width: resolved_line_width(m, g),
        use_tabs: resolved_use_tabs(m, g),
        indent_width: resolved_indent_width(m, g),
        new_line_kind: resolved_new_line_kind(m, g),
    }
}

pub open spec fn bad_line_width(m: Seq<(String, ConfigValue)>) -> bool {
    match lookup(m, "lineWidth"@) {
        Some(ConfigValue::Int(n)) => n < 1,
        Some(_) => true,
        None => false,
    }
}

pub open spec fn bad_use_tabs(m: Seq<(String, ConfigValue)>) -> bool {
    match lookup(m, "useTabs"@) {
        Some(ConfigValue::Bool(_)) => false,
        Some(_) => true,
        None => false,
    }
}

pub open spec fn bad_indent_width(m: Seq<(String, ConfigValue)>) -> bool {
    match lookup(m, "indentWidth"@) {
        Some(ConfigValue::Int(n)) => !(1 <= n <= 255),
        Some(_) => true,
        None => false,
    }
}

pub open spec fn bad_new_line_kind(m: Seq<(String, ConfigValue)>) -> bool {
    match lookup(m, "newLineKind"@) {
        Some(ConfigValue::Str(s)) => new_line_kind_of(s@) is None,
        Some(_) => true,
        None => false,
    }
}

/// Diagnostics for overrides that are present but of the wrong type or out
/// of range, in the fixed key order the resolver uses.
pub open spec fn invalid_diags(m: Seq<(String, ConfigValue)>) -> Seq<(Seq<char>, Seq<char>)> {
    (if bad_line_width(m) {
        seq![("lineWidth"@, "Expected a positive integer value"@)]
    } else {
        Seq::empty()
    }) + (if bad_use_tabs(m) {
        seq![("useTabs"@, "Expected a boolean value"@)]
    } else {
        Seq::empty()
    }) + (if bad_indent_width(m) {
        seq![("indentWidth"@, "Expected a positive integer value no larger than 255"@)]
    } else {
        Seq::empty()
    }) + (if bad_new_line_kind(m) {
        seq![("newLineKind"@, "Expected one of: auto, lf, crlf"@)]
    } else {
        Seq::empty()
    })
}

/// Diagnostics for entries whose key is not recognized, in map order.
pub open spec fn unknown_diags(s: Seq<(String, ConfigValue)>) -> Seq<(Seq<char>, Seq<char>)>
    decreases s.len(),
{
    if s.len() == 0 {
        Seq::empty()
    } else {
        unknown_diags(s.drop_last()) + (if known_key(s.last().0@) {
            Seq::empty()
        } else {
            seq![(s.last().0@, "Unknown property in configuration"@)]
        })
    }
}

pub open spec fn resolve_diags(m: Seq<(String, ConfigValue)>) -> Seq<(Seq<char>, Seq<char>)> {
    invalid_diags(m) + unknown_diags(m)
}

pub open spec fn diag_model(d: ConfigurationDiagnostic) -> (Seq<char>, Seq<char>) {
    (d.property_name@, d.message@)
}

/// The key/message pairs of a diagnostics list.
pub open spec fn diags_model(ds: Seq<ConfigurationDiagnostic>) -> Seq<(Seq<char>, Seq<char>)> {
    ds.map_values(|d: ConfigurationDiagnostic| diag_model(d))
}

proof fn lemma_lookup_skip(s: Seq<(String, ConfigValue)>, k: Seq<char>, i: int)
    requires
        0 <= i <= s.len(),
        forall|j: int| 0 <= j < i ==> s[j].0@ != k,
    ensures
        lookup(s, k) == lookup(s.skip(i), k),
        key_index(s, k) == i + key_index(s.skip(i), k),
    decreases i,
{
    if i > 0 {
        lemma_lookup_skip(s.skip(1), k, i - 1);
        assert(s.skip(1).skip(i - 1) =~= s.skip(i));
    } else {
        assert(s.skip(0) =~= s);
    }
}

proof fn lemma_diags_push_model(
    before: Seq<ConfigurationDiagnostic>,
    after: Seq<ConfigurationDiagnostic>,
    pair: (Seq<char>, Seq<char>),
)
    requires
        after.len() == before.len() + 1,
        after.drop_last() == before,
        diag_model(after.last()) == pair,
    ensures
        diags_model(after) == diags_model(before) + seq![pair],
{
    assert forall|i: int| 0 <= i < after.len() implies diags_model(after)[i] == (diags_model(
        before,
    ) + seq![pair])[i] by {
        if i < before.len() {
            assert(after.drop_last()[i] == after[i]);
            assert(before[i] == after[i]);
        } else {
            assert(after[i] == after.last());
        }
    }
    assert(diags_model(after) =~= diags_model(before) + seq![pair]);
}

/// Finds the first entry with the given key.
fn find_key(m: &ConfigKeyMap, key: &String) -> (r: Option<usize>)
    ensures
        match r {
            Some(i) => i < m@.len() && m@[i as int].0@ == key@ && key_index(m@, key@) == i
                && lookup(m@, key@) == Some(m@[i as int].1),
            None => !has_key(m@, key@) && key_index(m@, key@) == m@.len(),
        },
{
    let n = m.entries.len();
    let mut i: usize = 0;
    while i < n
        invariant
            n == m@.len(),
            0 <= i <= n,
            forall|j: int| 0 <= j < i ==> m@[j].0@ != key@,
        decreases n - i,
    {
        if m.entries[i].0.eq(key) {
            proof {
                lemma_lookup_skip(m@, key@, i as int);
            }
            return Some(i);
        }
        i = i + 1;
    }
    proof {
        lemma_lookup_skip(m@, key@, n as int);
    }
    None
}

/// True exactly when the resolver recognizes the key.
fn is_known_key(key: &String) -> (r: bool)
    ensures
        r == known_key(key@),
{
    let lw = String::from_str("lineWidth");
    let ut = String::from_str("useTabs");
    let iw = String::from_str("indentWidth");
    let nk = String::from_str("newLineKind");
    key.eq(&lw) || key.eq(&ut) || key.eq(&iw) || key.eq(&nk)
}

fn push_diag(diags: &mut Vec<ConfigurationDiagnostic>, key: &str, message: &str)
    ensures
        final(diags)@.len() == old(diags)@.len() + 1,
        final(diags)@.drop_last() == old(diags)@,
        diag_model(final(diags)@.last()) == (key@, message@),
{
    let d = ConfigurationDiagnostic { property_name: key.to_owned(), message: message.to_owned() };
    diags.push(d);
    proof {
        assert(diags@.drop_last() =~= old(diags)@);
    }
}

/// Merges the override map, the global configuration and the built-in
/// defaults into one effective configuration, collecting one diagnostic for
/// every override entry that is unrecognized, of the wrong type, or out of
/// range.  Resolution never fails and every field of the result is populated.
pub fn resolve_config(overrides: &ConfigKeyMap, global: &GlobalConfiguration) -> (r:
    ResolveConfigurationResult)
    ensures
        r.config == resolved_configuration(overrides@, *global),
        diags_model(r.diagnostics@) == resolve_diags(overrides@),
{
    let mut diags: Vec<ConfigurationDiagnostic> = Vec::new();

    let lw_key = String::from_str("lineWidth");
    let line_width: u32 = match find_key(overrides, &lw_key) {
        Some(i) => match &overrides.entries[i].1 {
            ConfigValue::Int(n) => if 1 <= *n {
                *n as u32
            } else {
                push_diag(&mut diags, "lineWidth", "Expected a positive integer value");
                fallback_line_width_exec(global)
            },
            _ => {
                push_diag(&mut diags, "lineWidth", "Expected a positive integer value");
                fallback_line_width_exec(global)
            },
        },
        None => fallback_line_width_exec(global),
    };

    let ut_key = String::from_str("useTabs");
    let use_tabs: bool = match find_key(overrides, &ut_key) {
        Some(i) => match &overrides.entries[i].1 {
            ConfigValue::Bool(b) => *b,
            _ => {
                push_diag(&mut diags, "useTabs", "Expected a boolean value");
                fallback_use_tabs_exec(global)
            },
        },
        None => fallback_use_tabs_exec(global),
    };

    let iw_key = String::from_str("indentWidth");
    let indent_width: u8 = match find_key(overrides, &iw_key) {
        Some(i) => match &overrides.entries[i].1 {
            ConfigValue::Int(n) => if 1 <= *n && *n <= 255 {
                *n as u8
            } else {
                push_diag(
                    &mut diags,
                    "indentWidth",
                    "Expected a positive integer value no larger than 255",
                );
                fallback_indent_width_exec(global)
            },
            _ => {
                push_diag(
                    &mut diags,
                    "indentWidth",
                    "Expected a positive integer value no larger than 255",
                );
                fallback_indent_width_exec(global)
            },
        },
        None => fallback_indent_width_exec(global),
    };

    let nk_key = String::from_str("newLineKind");
    let new_line_kind: NewLineKind = match find_key(overrides, &nk_key) {
        Some(i) => match &overrides.entries[i].1 {
            ConfigValue::Str(s) => match parse_new_line_kind(s) {
                Some(k) => k,
                None => {
                    push_diag(&mut diags, "newLineKind", "Expected one of: auto, lf, crlf");
                    fallback_new_line_kind_exec(global)
                },
            },
            _ => {
                push_diag(&mut diags, "newLineKind", "Expected one of: auto, lf, crlf");
                fallback_new_line_kind_exec(global)
            },
        },
        None => fallback_new_line_kind_exec(global),
    };

    assert(diags_model(diags@) =~= invalid_diags(overrides@));

    let n = overrides.entries.len();
    let mut k: usize = 0;
    while k < n
        invariant
            n == overrides@.len(),
            0 <= k <= n,
            diags_model(diags@) =~= invalid_diags(overrides@) + unknown_diags(
                overrides@.take(k as int),
            ),
        decreases n - k,
    {
        let ghost diags_before = diags@;
        let known = is_known_key(&overrides.entries[k].0);
        if !known {
            let name = overrides.entries[k].0.clone();
            let d = ConfigurationDiagnostic {
                property_name: name,
                message: String::from_str("Unknown property in configuration"),
            };
            diags.push(d);
            proof {
                assert(diags@.last().property_name@ == overrides@[k as int].0@);
                assert(diags@.last().message@ == "Unknown property in configuration"@);
                assert(diags@.drop_last() =~= diags_before);
                lemma_diags_push_model(
                    diags_before,
                    diags@,
                    (overrides@[k as int].0@, "Unknown property in configuration"@),
                );
            }
        }
        proof {
            let t1 = overrides@.take(k + 1);
            assert(t1.drop_last() =~= overrides@.take(k as int));
            assert(t1.last() == overrides@[k as int]);
            assert(unknown_diags(t1) == unknown_diags(overrides@.take(k as int)) + (
            if known_key(overrides@[k as int].0@) {
                Seq::<(Seq<char>, Seq<char>)>::empty()
            } else {
                seq![(overrides@[k as int].0@, "Unknown property in configuration"@)]
            }));
            assert(diags_model(diags@) =~= invalid_diags(overrides@) + unknown_diags(t1));
        }
        k = k + 1;
    }
    proof {
        assert(overrides@.take(n as int) =~= overrides@);
    }

    ResolveConfigurationResult {
        config: Configuration { line_width, use_tabs, indent_width, new_line_kind },
        diagnostics: diags,
    }
}

fn fallback_line_width_exec(g: &GlobalConfiguration) -> (r: u32)
    ensures
        r == fallback_line_width(*g),
{
    match g.line_width {
        Some(w) => w,
        None => 120,
    }
}

fn fallback_use_tabs_exec(g: &GlobalConfiguration) -> (r: bool)
    ensures
        r == fallback_use_tabs(*g),
{
    match g.use_tabs {
        Some(t) => t,
        None => false,
    }
}

fn fallback_indent_width_exec(g: &GlobalConfiguration) -> (r: u8)
    ensures
        r == fallback_indent_width(*g),
{
    match g.indent_width {
        Some(w) => w,
        None => 2,
    }
}

fn fallback_new_line_kind_exec(g: &GlobalConfiguration) -> (r: NewLineKind)
    ensures
        r == fallback_new_line_kind(*g),
{
    match g.new_line_kind {
        Some(k) => k,
        None => NewLineKind::LineFeed,
    }
}

/// Holds after inserting `(k, v)` into a map that read `old`: the first
/// entry for `k` is overwritten in place, or a new entry is appended.
pub open spec fn inserted(
    old: Seq<(String, ConfigValue)>,
    new: Seq<(String, ConfigValue)>,
    k: Seq<char>,
    v: ConfigValue,
) -> bool {
    if has_key(old, k) {
        new == old.update(key_index(old, k), (old[key_index(old, k)].0, v))
    } else {
        new.len() == old.len() + 1 && new.drop_last() == old && new.last().0@ == k && new.last().1
            == v
    }
}

/// The global configuration the builder falls back to when none is set:
/// no field is populated, so every built-in default applies.
pub open spec fn empty_global() -> GlobalConfiguration {
    GlobalConfiguration { line_width: None, use_tabs: None, indent_width: None, new_line_kind: None }
}

/// The global configuration a builder's `build` resolves against.
pub open spec fn effective_global(b: ConfigurationBuilder) -> GlobalConfiguration {
    match b.global_config {
        Some(g) => g,
        None => empty_global(),
    }
}

/// Fluent accumulator of override values; `build` materializes the
/// effective configuration through the resolver, discarding diagnostics.
pub struct ConfigurationBuilder {
    pub config: ConfigKeyMap,
    pub global_config: Option<GlobalConfiguration>,
}

impl ConfigurationBuilder {
    /// Constructs a builder with no overrides and no global configuration.
    pub fn new() -> (b: ConfigurationBuilder)
        ensures
            b.config@ == Seq::<(String, ConfigValue)>::empty(),
            b.global_config is None,
    {
        ConfigurationBuilder { config: ConfigKeyMap { entries: Vec::new() }, global_config: None }
    }

    /// Gets the final configuration that can be used to format a file.
    pub fn build(&self) -> (c: Configuration)
        ensures
            c == resolved_configuration(self.config@, effective_global(*self)),
    {
        match &self.global_config {
            Some(g) => resolve_config(&self.config, g).config,
            None => {
                let g = default_global_config();
                resolve_config(&self.config, &g).config
            },
        }
    }

    /// Set the global configuration.
    pub fn global_config(self, global_config: GlobalConfiguration) -> (b: Self)
        ensures
            b.config@ == self.config@,
            b.global_config == Some(global_config),
    {
        ConfigurationBuilder { config: self.config, global_config: Some(global_config) }
    }

    /// The width of a line the printer will try to stay under.  Note that
    /// the printer may exceed this width in certain cases.
    /// Default: `120`
    pub fn line_width(self, value: u32) -> (b: Self)
        ensures
            b.global_config == self.global_config,
            inserted(self.config@, b.config@, "lineWidth"@, ConfigValue::Int(value as i32)),
    {
        let v = #[verifier::truncate] (value as i32);
        self.insert("lineWidth", ConfigValue::Int(v))
    }

    /// Whether to use tabs (true) or spaces (false).
    ///
    /// Default: `false`
    pub fn use_tabs(self, value: bool) -> (b: Self)
        ensures
            b.global_config == self.global_config,
            inserted(self.config@, b.config@, "useTabs"@, ConfigValue::Bool(value)),
    {
        self.insert("useTabs", ConfigValue::Bool(value))
    }

    /// The number of columns for an indent.
    ///
    /// Default: `2`
    pub fn indent_width(self, value: u8) -> (b: Self)
        ensures
            b.global_config == self.global_config,
            inserted(self.config@, b.config@, "indentWidth"@, ConfigValue::Int(value as i32)),
    {
        self.insert("indentWidth", ConfigValue::Int(value as i32))
    }

    /// The kind of newline to use.
    /// Default: `NewLineKind::LineFeed`
    pub fn new_line_kind(self, value: NewLineKind) -> (b: Self)
        ensures
            b.global_config == self.global_config,
            exists|s: String|
                s@ == new_line_kind_text(value) && inserted(
                    self.config@,
                    b.config@,
                    "newLineKind"@,
                    ConfigValue::Str(s),
                ),
    {
        let s = new_line_kind_str(value);
        self.insert("newLineKind", ConfigValue::Str(s))
    }

    /// A copy of the accumulated override map.
    pub fn get_inner_config(&self) -> (m: ConfigKeyMap)
        ensures
            m@ == self.config@,
    {
        let n = self.config.entries.len();
        let mut entries: Vec<(String, ConfigValue)> = Vec::new();
        let mut i: usize = 0;
        while i < n
            invariant
                n == self.config@.len(),
                0 <= i <= n,
                entries@ == self.config@.take(i as int),
            decreases n - i,
        {
            let name = self.config.entries[i].0.clone();
            let value = clone_value(&self.config.entries[i].1);
            entries.push((name, value));
            proof {
                assert(entries@ =~= self.config@.take(i + 1));
            }
            i = i + 1;
        }
        proof {
            assert(self.config@.take(n as int) =~= self.config@);
        }
        ConfigKeyMap { entries }
    }

    #[verifier::loop_isolation(false)]
    fn insert(self, name: &str, value: ConfigValue) -> (b: Self)
        ensures
            b.global_config == self.global_config,
            inserted(self.config@, b.config@, name@, value),
    {
        let ghost old_entries = self.config@;
        let key = name.to_owned();
        let mut entries = self.config.entries;
        proof {
            assert(entries@ == old_entries);
        }
        let n = entries.len();
        let mut i: usize = 0;
        while i < n
            invariant
                n == old_entries.len(),
                entries@ == old_entries,
                0 <= i <= n,
                forall|j: int| 0 <= j < i ==> old_entries[j].0@ != key@,
                key@ == name@,
            decreases n - i,
        {
            if entries[i].0.eq(&key) {
                proof {
                    lemma_lookup_skip(old_entries, key@, i as int);
                    assert(old_entries.skip(i as int).len() > 0);
                    assert(old_entries.skip(i as int)[0] == old_entries[i as int]);
                    assert(old_entries[i as int].0@ == key@);
                    assert(lookup(old_entries, key@) == Some(old_entries[i as int].1));
                    assert(has_key(old_entries, key@));
                    assert(key_index(old_entries, key@) == i as int);
                }
                let name_i = entries[i].0.clone();
                entries.set(i, (name_i, value));
                proof {
                    assert(name_i == old_entries[i as int].0);
                    assert((name_i, value) == (old_entries[i as int].0, value));
                    assert(entries@ == old_entries.update(i as int, (old_entries[i as int].0, value)));
                }
                return ConfigurationBuilder {
                    config: ConfigKeyMap { entries },
                    global_config: self.global_config,
                };
            }
            i = i + 1;
        }
        proof {
            lemma_lookup_skip(old_entries, key@, n as int);
        }
        entries.push((key, value));
        proof {
            assert(entries@.drop_last() =~= old_entries);
        }
        ConfigurationBuilder { config: ConfigKeyMap { entries }, global_config: self.global_config }
    }
}

/// The canonical string form of a newline kind, as the resolver reads it.
pub open spec fn new_line_kind_text(k: NewLineKind) -> Seq<char> {
    match k {
        NewLineKind::Auto => "auto"@,
        NewLineKind::LineFeed => "lf"@,
        NewLineKind::CarriageReturnLineFeed => "crlf"@,
    }
}

fn new_line_kind_str(k: NewLineKind) -> (s: String)
    ensures
        s@ == new_line_kind_text(k),
{
    match k {
        NewLineKind::Auto => String::from_str("auto"),
        NewLineKind::LineFeed => String::from_str("lf"),
        NewLineKind::CarriageReturnLineFeed => String::from_str("crlf"),
    }
}

/// Relies on dprint_core::configuration::resolve_global_config: resolving an
/// empty key map reads no entry, so every field of the produced global
/// configuration is `None`.
#[verifier::external_body]
fn default_global_config() -> (g: GlobalConfiguration)
    ensures
        g == empty_global(),
{
    let mut m = dprint_core::configuration::ConfigKeyMap::new();
    let r = dprint_core::configuration::resolve_global_config(&mut m);
    GlobalConfiguration {
        line_width: r.config.line_width,
        use_tabs: r.config.use_tabs,
        indent_width: r.config.indent_width,
        new_line_kind: match r.config.new_line_kind {
            Some(dprint_core::configuration::NewLineKind::Auto) => Some(NewLineKind::Auto),
            Some(dprint_core::configuration::NewLineKind::LineFeed) => Some(NewLineKind::LineFeed),
            Some(dprint_core::configuration::NewLineKind::CarriageReturnLineFeed) => Some(
                NewLineKind::CarriageReturnLineFeed,
            ),
            None => None,
        },
    }
}

fn clone_value(v: &ConfigValue) -> (r: ConfigValue)
    ensures
        r == *v,
{
    match v {
        ConfigValue::Str(s) => ConfigValue::Str(s.clone()),
        ConfigValue::Int(n) => ConfigValue::Int(*n),
        ConfigValue::Bool(b) => ConfigValue::Bool(*b),
    }
}

/// Parses the string form of a newline kind; `None` for anything else.
fn parse_new_line_kind(s: &String) -> (r: Option<NewLineKind>)
    ensures
        r == new_line_kind_of(s@),
{
    let auto = String::from_str("auto");
    let lf = String::from_str("lf");
    let crlf = String::from_str("crlf");
    if s.eq(&auto) {
        Some(NewLineKind::Auto)
    } else if s.eq(&lf) {
        Some(NewLineKind::LineFeed)
    } else if s.eq(&crlf) {
        Some(NewLineKind::CarriageReturnLineFeed)
    } else {
        None
    }
}

} // verus!
