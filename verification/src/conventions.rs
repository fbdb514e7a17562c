//! Structural convention engine.
//!
//! The engine works on the sequence of top-level elements of a parsed
//! manifest document: nodes (section headers, entries, values) interleaved
//! with plain tokens (whitespace, comments).  When a recognized section
//! header is found, the immediately following run of entry nodes is
//! reordered under that section's policy; every entry keeps to an element
//! position that held an entry before, so all tokens and untargeted
//! elements stay exactly where they were.

use vstd::prelude::*;
use vstd::string::*;
use vstd::multiset::Multiset;

verus! {

/// One top-level element of a parsed document, reduced to the plain values
/// the engine reads: whether it is a node (as opposed to a token), whether
/// it is an entry, its full source text, and — for entries — its key.
pub struct ElemInfo {
    pub is_node: bool,
    pub is_entry: bool,
    pub text: String,
    pub key: String,
    /// The element's position among the document's top-level elements at
    /// scan time; reordering carries it along, so each output element
    /// names the input element it came from.
    pub index: usize,
}

/// The mathematical model of one element.
pub struct Elem {
    pub is_node: bool,
    pub is_entry: bool,
    pub text: Seq<char>,
    pub key: Seq<char>,
    pub index: usize,
}

impl View for ElemInfo {
    type V = Elem;

    open spec fn view(&self) -> Elem {
        Elem {
            is_node: self.is_node,
            is_entry: self.is_entry,
            text: self.text@,
            key: self.key@,
            index: self.index,
        }
    }
}

/// The models of a sequence of elements.
pub open spec fn ems(s: Seq<ElemInfo>) -> Seq<Elem> {
    s.map_values(|e: ElemInfo| e@)
}

/// How the entries of one recognized section are ordered.
#[derive(Clone, Copy, PartialEq, Eq, Debug, Structural)]
pub enum SectionPolicy {
    /// `name` first, `version` second, `description` last, everything else
    /// lexicographic in between.
    PackageIdentity,
    /// Strictly lexicographic by entry key.
    Lexicographic,
}

/// Lexicographic order on character sequences, by code point.
pub open spec fn lex_le(a: Seq<char>, b: Seq<char>) -> bool
    decreases a.len(),
{
    if a.len() == 0 {
        true
    } else if b.len() == 0 {
        false
    } else if a[0] as u32 != b[0] as u32 {
        (a[0] as u32) < (b[0] as u32)
    } else {
        lex_le(a.skip(1), b.skip(1))
    }
}

/// The bucket a key falls into under the package-identity policy.
pub open spec fn package_rank(k: Seq<char>) -> int {
    if k == "name"@ {
        0
    } else if k == "version"@ {
        1
    } else if k == "description"@ {
        3
    } else {
        2
    }
}

/// The total preorder a section policy puts on entry keys.
pub open spec fn entry_le(p: SectionPolicy, a: Seq<char>, b: Seq<char>) -> bool {
    match p {
        SectionPolicy::PackageIdentity => package_rank(a) < package_rank(b) || (package_rank(a)
            == package_rank(b) && (package_rank(a) != 2 || lex_le(a, b))),
        SectionPolicy::Lexicographic => lex_le(a, b),
    }
}

/// Inserts `e` into the already sorted `s`, after every element whose key
/// is less than or equal to `e`'s: equal keys keep their original order,
/// so sorting with this insertion is stable.
pub open spec fn insert_sorted(p: SectionPolicy, e: Elem, s: Seq<Elem>) -> Seq<Elem>
    decreases s.len(),
{
    if s.len() == 0 {
        seq![e]
    } else if entry_le(p, s[0].key, e.key) {
        seq![s[0]] + insert_sorted(p, e, s.skip(1))
    } else {
        seq![e] + s
    }
}

/// Stable insertion sort of a run of entries under a policy.
pub open spec fn sort_entries(p: SectionPolicy, s: Seq<Elem>) -> Seq<Elem>
    decreases s.len(),
{
    if s.len() == 0 {
        Seq::empty()
    } else {
        insert_sorted(p, s.last(), sort_entries(p, s.drop_last()))
    }
}

/// The element positions in `[0, e)` of `s` that hold an entry.
pub open spec fn entry_slots(s: Seq<Elem>, e: int) -> Seq<int>
    decreases e,
{
    if e <= 0 {
        Seq::empty()
    } else {
        entry_slots(s, e - 1) + (if s[e - 1].is_entry {
            seq![e - 1]
        } else {
            Seq::<int>::empty()
        })
    }
}

/// The entries among the first `e` elements of `s`, in element order.
pub open spec fn entries_of(s: Seq<Elem>, e: int) -> Seq<Elem>
    decreases e,
{
    if e <= 0 {
        Seq::empty()
    } else {
        entries_of(s, e - 1) + (if s[e - 1].is_entry {
            seq![s[e - 1]]
        } else {
            Seq::<Elem>::empty()
        })
    }
}

/// Writes `vals` into `s` at the positions `slots`, pairwise.
pub open spec fn assign_slots(s: Seq<Elem>, slots: Seq<int>, vals: Seq<Elem>) -> Seq<Elem>
    decreases slots.len(),
{
    if slots.len() == 0 || vals.len() == 0 {
        s
    } else {
        assign_slots(s, slots.drop_last(), vals.drop_last()).update(slots.last(), vals.last())
    }
}

/// A section's element range with its entries reordered under `p`: the
/// sorted entries are written back into exactly the element positions the
/// original entries occupied, and every other element stays in place.
pub open spec fn reorder_section(sub: Seq<Elem>, p: SectionPolicy) -> Seq<Elem> {
    assign_slots(
        sub,
        entry_slots(sub, sub.len() as int),
        sort_entries(p, entries_of(sub, sub.len() as int)),
    )
}

pub open spec fn is_package_header(e: Elem) -> bool {
    e.is_node && e.text == "[package]"@
}

pub open spec fn is_dependency_header(e: Elem) -> bool {
    e.is_node && (e.text == "[dependencies]"@ || e.text == "[dev-dependencies]"@)
}

pub open spec fn is_recognized_header(e: Elem) -> bool {
    is_package_header(e) || is_dependency_header(e)
}

pub open spec fn header_policy(e: Elem) -> SectionPolicy {
    if is_package_header(e) {
        SectionPolicy::PackageIdentity
    } else {
        SectionPolicy::Lexicographic
    }
}

/// First position at or after `j` holding a node that is not an entry;
/// `s.len()` when there is none.  The entry run that follows a header ends
/// there: tokens between entries do not end the run.
pub open spec fn run_end(s: Seq<Elem>, j: int) -> int
    decreases s.len() - j,
{
    if j < 0 || j >= s.len() {
        s.len() as int
    } else if s[j].is_node && !s[j].is_entry {
        j
    } else {
        run_end(s, j + 1)
    }
}

pub proof fn lemma_run_end_bounds(s: Seq<Elem>, j: int)
    requires
        0 <= j <= s.len(),
    ensures
        j <= run_end(s, j) <= s.len(),
    decreases s.len() - j,
{
    if j < s.len() && !(s[j].is_node && !s[j].is_entry) {
        lemma_run_end_bounds(s, j + 1);
    }
}

/// The document's element sequence from position `i` on, with every
/// recognized section's entry run reordered; scanning resumes right after
/// each run, in document order.
pub open spec fn conv_from(s: Seq<Elem>, i: int) -> Seq<Elem>
    decreases s.len() - i when 0 <= i via conv_from_dec
{
    if i >= s.len() {
        Seq::empty()
    } else if is_recognized_header(s[i]) {
        let e = run_end(s, i + 1);
        seq![s[i]] + reorder_section(s.subrange(i + 1, e), header_policy(s[i])) + conv_from(s, e)
    } else {
        seq![s[i]] + conv_from(s, i + 1)
    }
}

#[via_fn]
proof fn conv_from_dec(s: Seq<Elem>, i: int) {
    if 0 <= i < s.len() && is_recognized_header(s[i]) {
        lemma_run_end_bounds(s, i + 1);
    }
}

/// What applying the structural conventions means for a whole document.
pub open spec fn apply_conventions_spec(s: Seq<Elem>) -> Seq<Elem> {
    conv_from(s, 0)
}

pub proof fn lemma_insert_sorted_len(p: SectionPolicy, e: Elem, s: Seq<Elem>)
    ensures
        insert_sorted(p, e, s).len() == s.len() + 1,
    decreases s.len(),
{
    if s.len() > 0 && entry_le(p, s[0].key, e.key) {
        lemma_insert_sorted_len(p, e, s.skip(1));
    }
}

pub proof fn lemma_sort_entries_len(p: SectionPolicy, s: Seq<Elem>)
    ensures
        sort_entries(p, s).len() == s.len(),
    decreases s.len(),
{
    if s.len() > 0 {
        lemma_sort_entries_len(p, s.drop_last());
        lemma_insert_sorted_len(p, s.last(), sort_entries(p, s.drop_last()));
    }
}

proof fn lemma_insert_sorted_pos(p: SectionPolicy, e: Elem, s: Seq<Elem>, pos: int)
    requires
        0 <= pos <= s.len(),
        forall|j: int| 0 <= j < pos ==> entry_le(p, s[j].key, e.key),
        pos < s.len() ==> !entry_le(p, s[pos].key, e.key),
    ensures
        insert_sorted(p, e, s) == s.subrange(0, pos) + seq![e] + s.subrange(pos, s.len() as int),
    decreases s.len(),
{
    if s.len() == 0 {
        assert(insert_sorted(p, e, s) =~= s.subrange(0, pos) + seq![e] + s.subrange(
            pos,
            s.len() as int,
        ));
    } else if pos == 0 {
        assert(insert_sorted(p, e, s) =~= s.subrange(0, 0) + seq![e] + s.subrange(
            0,
            s.len() as int,
        ));
    } else {
        assert(entry_le(p, s[0].key, e.key));
        lemma_insert_sorted_pos(p, e, s.skip(1), pos - 1);
        assert(forall|j: int|
            0 <= j < pos - 1 ==> s.skip(1)[j] == s[j + 1] && entry_le(p, s.skip(1)[j].key, e.key));
        assert(insert_sorted(p, e, s) =~= s.subrange(0, pos) + seq![e] + s.subrange(
            pos,
            s.len() as int,
        ));
    }
}

proof fn lemma_conv_from_no_headers(s: Seq<Elem>, i: int)
    requires
        0 <= i <= s.len(),
        forall|k: int| 0 <= k < s.len() ==> !is_recognized_header(s[k]),
    ensures
        conv_from(s, i) == s.subrange(i, s.len() as int),
    decreases s.len() - i,
{
    if i >= s.len() {
        assert(conv_from(s, i) =~= s.subrange(i, s.len() as int));
    } else {
        lemma_conv_from_no_headers(s, i + 1);
        assert(conv_from(s, i) =~= s.subrange(i, s.len() as int));
    }
}

/// Law: a document with no recognized section header passes through the
/// convention engine unchanged.
pub proof fn lemma_no_headers_unchanged(s: Seq<Elem>)
    requires
        forall|k: int| 0 <= k < s.len() ==> !is_recognized_header(s[k]),
    ensures
        apply_conventions_spec(s) == s,
{
    lemma_conv_from_no_headers(s, 0);
    assert(s.subrange(0, s.len() as int) =~= s);
}

/// The position at which `insert_sorted` places a new entry: after every
/// element at or below it.
pub open spec fn insert_pos(p: SectionPolicy, e: Elem, s: Seq<Elem>) -> int
    decreases s.len(),
{
    if s.len() == 0 {
        0
    } else if entry_le(p, s[0].key, e.key) {
        1 + insert_pos(p, e, s.skip(1))
    } else {
        0
    }
}

proof fn lemma_insert_pos_props(p: SectionPolicy, e: Elem, s: Seq<Elem>)
    ensures
        0 <= insert_pos(p, e, s) <= s.len(),
        forall|j: int| 0 <= j < insert_pos(p, e, s) ==> entry_le(p, s[j].key, e.key),
        insert_pos(p, e, s) < s.len() ==> !entry_le(
            p,
            s[insert_pos(p, e, s)].key,
            e.key,
        ),
        insert_sorted(p, e, s) == s.subrange(0, insert_pos(p, e, s)) + seq![e] + s.subrange(
            insert_pos(p, e, s),
            s.len() as int,
        ),
    decreases s.len(),
{
    if s.len() > 0 && entry_le(p, s[0].key, e.key) {
        lemma_insert_pos_props(p, e, s.skip(1));
        assert(forall|j: int|
            1 <= j < insert_pos(p, e, s) ==> s.skip(1)[j - 1] == s[j] && entry_le(
                p,
                s.skip(1)[j - 1].key,
                e.key,
            ));
        if insert_pos(p, e, s) < s.len() {
            assert(s.skip(1)[insert_pos(p, e, s.skip(1))] == s[insert_pos(p, e, s)]);
        }
        assert(insert_sorted(p, e, s) =~= s.subrange(0, insert_pos(p, e, s)) + seq![e]
            + s.subrange(insert_pos(p, e, s), s.len() as int));
    } else {
        assert(insert_sorted(p, e, s) =~= s.subrange(0, insert_pos(p, e, s)) + seq![e]
            + s.subrange(insert_pos(p, e, s), s.len() as int));
    }
}

/// Law: inserting an entry keeps every element already present; nothing is
/// lost or invented.
pub proof fn lemma_insert_sorted_permutation(p: SectionPolicy, e: Elem, s: Seq<Elem>)
    ensures
        insert_sorted(p, e, s).to_multiset() == s.to_multiset().insert(e),
{
    lemma_insert_pos_props(p, e, s);
    let pos = insert_pos(p, e, s);
    let a = s.subrange(0, pos);
    let b = s.subrange(pos, s.len() as int);
    vstd::seq_lib::lemma_multiset_commutative(a + seq![e], b);
    vstd::seq_lib::lemma_multiset_commutative(a, seq![e]);
    vstd::seq_lib::lemma_multiset_commutative(a, b);
    assert(a + b =~= s);
    assert(seq![e].to_multiset() =~= Multiset::empty().insert(e)) by {
        seq![e].to_multiset_ensures();
        assert(seq![e].drop_last() =~= Seq::<Elem>::empty());
        Seq::<Elem>::empty().to_multiset_ensures();
    }
    assert(insert_sorted(p, e, s).to_multiset() =~= s.to_multiset().insert(e));
}

/// Law: sorting a section's entries is a permutation — every entry of the
/// original run appears in the result exactly as often, and nothing else
/// does.
pub proof fn lemma_sort_entries_permutation(p: SectionPolicy, s: Seq<Elem>)
    ensures
        sort_entries(p, s).to_multiset() == s.to_multiset(),
    decreases s.len(),
{
    if s.len() == 0 {
        assert(s =~= Seq::<Elem>::empty());
    } else {
        lemma_sort_entries_permutation(p, s.drop_last());
        lemma_insert_sorted_permutation(p, s.last(), sort_entries(p, s.drop_last()));
        s.drop_last().to_multiset_ensures();
        assert(s.drop_last().push(s.last()) =~= s);
        assert(sort_entries(p, s).to_multiset() =~= s.to_multiset());
    }
}

/// Whether a run of entries is in policy order.
pub open spec fn sorted_by(p: SectionPolicy, s: Seq<Elem>) -> bool {
    forall|i: int, j: int| 0 <= i <= j < s.len() ==> entry_le(p, s[i].key, s[j].key)
}

pub proof fn lemma_lex_le_total(a: Seq<char>, b: Seq<char>)
    ensures
        lex_le(a, b) || lex_le(b, a),
    decreases a.len(),
{
    if a.len() > 0 && b.len() > 0 && a[0] as u32 == b[0] as u32 {
        lemma_lex_le_total(a.skip(1), b.skip(1));
    }
}

pub proof fn lemma_lex_le_trans(a: Seq<char>, b: Seq<char>, c: Seq<char>)
    requires
        lex_le(a, b),
        lex_le(b, c),
    ensures
        lex_le(a, c),
    decreases a.len(),
{
    if a.len() > 0 && b.len() > 0 && c.len() > 0 && a[0] as u32 == b[0] as u32 && b[0] as u32
        == c[0] as u32 {
        lemma_lex_le_trans(a.skip(1), b.skip(1), c.skip(1));
    }
}

pub proof fn lemma_entry_le_total(p: SectionPolicy, a: Seq<char>, b: Seq<char>)
    ensures
        entry_le(p, a, b) || entry_le(p, b, a),
{
    lemma_lex_le_total(a, b);
}

pub proof fn lemma_entry_le_trans(p: SectionPolicy, a: Seq<char>, b: Seq<char>, c: Seq<char>)
    requires
        entry_le(p, a, b),
        entry_le(p, b, c),
    ensures
        entry_le(p, a, c),
{
    if lex_le(a, b) && lex_le(b, c) {
        lemma_lex_le_trans(a, b, c);
    }
}

proof fn lemma_insert_sorted_sorted(p: SectionPolicy, e: Elem, s: Seq<Elem>)
    requires
        sorted_by(p, s),
    ensures
        sorted_by(p, insert_sorted(p, e, s)),
{
    lemma_insert_pos_props(p, e, s);
    let pos = insert_pos(p, e, s);
    let r = insert_sorted(p, e, s);
    if pos < s.len() {
        lemma_entry_le_total(p, s[pos].key, e.key);
    }
    assert forall|i: int, j: int| 0 <= i <= j < r.len() implies entry_le(
        p,
        r[i].key,
        r[j].key,
    ) by {
        lemma_entry_le_total(p, e.key, e.key);
        if i < pos {
            assert(r[i] == s[i]);
        } else if i == pos {
            assert(r[i] == e);
        } else {
            assert(r[i] == s[i - 1]);
        }
        if j < pos {
            assert(r[j] == s[j]);
        } else if j == pos {
            assert(r[j] == e);
        } else {
            assert(r[j] == s[j - 1]);
        }
        if i == pos && j > pos {
            assert(entry_le(p, e.key, s[pos].key));
            assert(entry_le(p, s[pos].key, s[j - 1].key));
            lemma_entry_le_trans(p, e.key, s[pos].key, s[j - 1].key);
        }
    }
}

/// Law: after normalization a section's entries are in policy order —
/// under the package-identity policy `name` first, `version` second,
/// `description` last and everything else lexicographic in between; under
/// the dependency policy strictly lexicographic.
pub proof fn lemma_sort_entries_sorted(p: SectionPolicy, s: Seq<Elem>)
    ensures
        sorted_by(p, sort_entries(p, s)),
    decreases s.len(),
{
    if s.len() > 0 {
        lemma_sort_entries_sorted(p, s.drop_last());
        lemma_insert_sorted_sorted(p, s.last(), sort_entries(p, s.drop_last()));
    }
}

proof fn lemma_sort_of_sorted_id(p: SectionPolicy, s: Seq<Elem>)
    requires
        sorted_by(p, s),
    ensures
        sort_entries(p, s) == s,
    decreases s.len(),
{
    if s.len() > 0 {
        assert forall|i: int, j: int|
            0 <= i <= j < s.drop_last().len() implies entry_le(
            p,
            s.drop_last()[i].key,
            s.drop_last()[j].key,
        ) by {
            assert(s.drop_last()[i] == s[i]);
            assert(s.drop_last()[j] == s[j]);
        }
        lemma_sort_of_sorted_id(p, s.drop_last());
        lemma_insert_pos_props(p, s.last(), s.drop_last());
        let pos = insert_pos(p, s.last(), s.drop_last());
        assert(forall|j: int| 0 <= j < s.len() - 1 ==> entry_le(p, s[j].key, s.last().key));
        assert(pos == s.len() - 1) by {
            if pos < s.len() - 1 {
                assert(s.drop_last()[pos] == s[pos]);
            }
        }
        assert(sort_entries(p, s) =~= s);
    }
}

/// Law: normalizing an already normalized run of entries changes nothing —
/// sorting a section's entries is idempotent, so formatting already
/// formatted sections leaves their order as it is.
pub proof fn lemma_sort_entries_idempotent(p: SectionPolicy, s: Seq<Elem>)
    ensures
        sort_entries(p, sort_entries(p, s)) == sort_entries(p, s),
{
    lemma_sort_entries_sorted(p, s);
    lemma_sort_of_sorted_id(p, sort_entries(p, s));
}

/// Law: the sort is stable on ties — a run whose keys all compare equal
/// keeps its original order exactly.
pub proof fn lemma_sort_entries_stable_on_equal_keys(
    p: SectionPolicy,
    s: Seq<Elem>,
    k: Seq<char>,
)
    requires
        forall|i: int| 0 <= i < s.len() ==> s[i].key == k,
    ensures
        sort_entries(p, s) == s,
{
    lemma_entry_le_total(p, k, k);
    assert(sorted_by(p, s));
    lemma_sort_of_sorted_id(p, s);
}

/// Whether some slot in the list is exactly `q`.
pub open spec fn slot_member(slots: Seq<int>, q: int) -> bool {
    exists|t: int| 0 <= t < slots.len() && slots[t] == q
}

proof fn lemma_entry_slots_props(s: Seq<Elem>, e: int)
    requires
        0 <= e <= s.len(),
    ensures
        entry_slots(s, e).len() == entries_of(s, e).len(),
        forall|t: int|
            0 <= t < entry_slots(s, e).len() ==> 0 <= #[trigger] entry_slots(s, e)[t] < e
                && s[entry_slots(s, e)[t]].is_entry && entries_of(s, e)[t] == s[entry_slots(
                s,
                e,
            )[t]],
        forall|t1: int, t2: int|
            0 <= t1 < t2 < entry_slots(s, e).len() ==> #[trigger] entry_slots(s, e)[t1]
                < #[trigger] entry_slots(s, e)[t2],
    decreases e,
{
    if e > 0 {
        lemma_entry_slots_props(s, e - 1);
    }
}

proof fn lemma_slots_congruent(s1: Seq<Elem>, s2: Seq<Elem>, e: int)
    requires
        s1.len() == s2.len(),
        0 <= e <= s1.len(),
        forall|q: int| 0 <= q < s1.len() ==> s1[q].is_entry == s2[q].is_entry,
    ensures
        entry_slots(s1, e) == entry_slots(s2, e),
    decreases e,
{
    if e > 0 {
        lemma_slots_congruent(s1, s2, e - 1);
    }
}

proof fn lemma_assign_props(s: Seq<Elem>, slots: Seq<int>, vals: Seq<Elem>)
    requires
        vals.len() == slots.len(),
        forall|t: int| 0 <= t < slots.len() ==> 0 <= #[trigger] slots[t] < s.len(),
        forall|t1: int, t2: int|
            0 <= t1 < t2 < slots.len() ==> #[trigger] slots[t1] < #[trigger] slots[t2],
    ensures
        assign_slots(s, slots, vals).len() == s.len(),
        forall|t: int|
            0 <= t < slots.len() ==> assign_slots(s, slots, vals)[#[trigger] slots[t]] == vals[t],
        forall|q: int|
            0 <= q < s.len() && !slot_member(slots, q) ==> assign_slots(s, slots, vals)[q] == s[q],
    decreases slots.len(),
{
    if slots.len() > 0 {
        let sl = slots.drop_last();
        let vl = vals.drop_last();
        lemma_assign_props(s, sl, vl);
        let inner = assign_slots(s, sl, vl);
        let r = assign_slots(s, slots, vals);
        assert(r == inner.update(slots.last(), vals.last()));
        assert forall|t: int|
            0 <= t < slots.len() implies r[#[trigger] slots[t]] == vals[t] by {
            if t < slots.len() - 1 {
                assert(sl[t] == slots[t] && vl[t] == vals[t]);
                assert(slots[t] < slots[slots.len() - 1]);
            }
        }
        assert forall|q: int|
            0 <= q < s.len() && !slot_member(slots, q) implies r[q] == s[q] by {
            assert(slots[slots.len() - 1] == slots.last());
            assert(!slot_member(sl, q)) by {
                if slot_member(sl, q) {
                    let t = choose|t: int| 0 <= t < sl.len() && sl[t] == q;
                    assert(slots[t] == q);
                }
            }
            assert(q != slots.last());
        }
    }
}

proof fn lemma_insert_sorted_all_entries(p: SectionPolicy, e: Elem, s: Seq<Elem>)
    requires
        e.is_entry,
        forall|i: int| 0 <= i < s.len() ==> s[i].is_entry,
    ensures
        forall|t: int|
            0 <= t < insert_sorted(p, e, s).len() ==> insert_sorted(p, e, s)[t].is_entry,
{
    lemma_insert_pos_props(p, e, s);
}

proof fn lemma_sort_all_entries(p: SectionPolicy, s: Seq<Elem>)
    requires
        forall|i: int| 0 <= i < s.len() ==> s[i].is_entry,
    ensures
        sort_entries(p, s).len() == s.len(),
        forall|t: int| 0 <= t < sort_entries(p, s).len() ==> sort_entries(p, s)[t].is_entry,
    decreases s.len(),
{
    lemma_sort_entries_len(p, s);
    if s.len() > 0 {
        assert(forall|i: int| 0 <= i < s.len() - 1 ==> s.drop_last()[i] == s[i]);
        lemma_sort_all_entries(p, s.drop_last());
        lemma_insert_sorted_all_entries(p, s.last(), sort_entries(p, s.drop_last()));
    }
}

/// Law: reordering one section leaves every non-entry element exactly in
/// place, keeps entries at entry positions, and puts the section's entries
/// into policy order.
pub proof fn lemma_reorder_section_frame(sub: Seq<Elem>, p: SectionPolicy)
    ensures
        reorder_section(sub, p).len() == sub.len(),
        forall|q: int|
            0 <= q < sub.len() ==> reorder_section(sub, p)[q].is_entry == sub[q].is_entry,
        forall|q: int|
            0 <= q < sub.len() && !sub[q].is_entry ==> reorder_section(sub, p)[q] == sub[q],
        entries_of(reorder_section(sub, p), sub.len() as int) == sort_entries(
            p,
            entries_of(sub, sub.len() as int),
        ),
{
    let n = sub.len() as int;
    let slots = entry_slots(sub, n);
    let ents = entries_of(sub, n);
    let vals = sort_entries(p, ents);
    let r = reorder_section(sub, p);
    lemma_entry_slots_props(sub, n);
    assert forall|i: int| 0 <= i < ents.len() implies ents[i].is_entry by {
        assert(0 <= entry_slots(sub, n)[i] < n);
    }
    lemma_sort_all_entries(p, ents);
    lemma_assign_props(sub, slots, vals);
    assert forall|q: int|
        0 <= q < sub.len() implies r[q].is_entry == sub[q].is_entry && (!sub[q].is_entry ==> r[q]
        == sub[q]) by {
        if slot_member(slots, q) {
            let t = choose|t: int| 0 <= t < slots.len() && slots[t] == q;
            assert(r[slots[t]] == vals[t]);
            assert(vals[t].is_entry);
            assert(sub[slots[t]].is_entry);
        }
    }
    lemma_slots_congruent(sub, r, n);
    lemma_entry_slots_props(r, n);
    assert(entries_of(r, n) =~= vals) by {
        assert(entry_slots(r, n) == slots);
        assert forall|t: int|
            0 <= t < entries_of(r, n).len() implies entries_of(r, n)[t] == vals[t] by {
            assert(entries_of(r, n)[t] == r[entry_slots(r, n)[t]]);
            assert(r[slots[t]] == vals[t]);
        }
    }
}

/// Law: reordering a section is idempotent — a second normalization of an
/// already normalized section changes nothing.
pub proof fn lemma_reorder_section_idempotent(sub: Seq<Elem>, p: SectionPolicy)
    ensures
        reorder_section(reorder_section(sub, p), p) == reorder_section(sub, p),
{
    let n = sub.len() as int;
    let r = reorder_section(sub, p);
    lemma_reorder_section_frame(sub, p);
    let ents_r = entries_of(r, n);
    lemma_sort_entries_sorted(p, entries_of(sub, n));
    assert(sorted_by(p, ents_r));
    lemma_sort_of_sorted_id(p, ents_r);
    let slots_r = entry_slots(r, n);
    lemma_entry_slots_props(r, n);
    lemma_assign_props(r, slots_r, ents_r);
    assert(reorder_section(r, p) =~= r) by {
        assert forall|q: int|
            0 <= q < r.len() implies reorder_section(r, p)[q] == r[q] by {
            assert(reorder_section(r, p) == assign_slots(r, slots_r, sort_entries(p, ents_r)));
            assert(sort_entries(p, ents_r) == ents_r);
            if slot_member(slots_r, q) {
                let t = choose|t: int| 0 <= t < slots_r.len() && slots_r[t] == q;
                assert(assign_slots(r, slots_r, ents_r)[slots_r[t]] == ents_r[t]);
                assert(ents_r[t] == r[slots_r[t]]);
            }
        }
    }
}

/// Whether a position ends an entry run: a node that is not an entry.
pub open spec fn run_stop(e: Elem) -> bool {
    e.is_node && !e.is_entry
}

proof fn lemma_run_end_char(s: Seq<Elem>, j: int)
    requires
        0 <= j <= s.len(),
    ensures
        forall|k: int| j <= k < run_end(s, j) ==> !run_stop(s[k]),
        run_end(s, j) < s.len() ==> run_stop(s[run_end(s, j)]),
    decreases s.len() - j,
{
    lemma_run_end_bounds(s, j);
    if j < s.len() && !run_stop(s[j]) {
        lemma_run_end_char(s, j + 1);
    }
}

proof fn lemma_run_end_of(s: Seq<Elem>, j: int, e: int)
    requires
        0 <= j <= e <= s.len(),
        forall|k: int| j <= k < e ==> !run_stop(s[k]),
        e < s.len() ==> run_stop(s[e]),
    ensures
        run_end(s, j) == e,
    decreases e - j,
{
    if j < e {
        lemma_run_end_of(s, j + 1, e);
    }
}

proof fn lemma_conv_from_len(s: Seq<Elem>, i: int)
    requires
        0 <= i <= s.len(),
    ensures
        conv_from(s, i).len() == s.len() - i,
    decreases s.len() - i,
{
    if i < s.len() {
        if is_recognized_header(s[i]) {
            let e = run_end(s, i + 1);
            lemma_run_end_bounds(s, i + 1);
            lemma_reorder_section_frame(s.subrange(i + 1, e), header_policy(s[i]));
            lemma_conv_from_len(s, e);
        } else {
            lemma_conv_from_len(s, i + 1);
        }
    }
}

proof fn lemma_conv_from_stitch(s: Seq<Elem>, i: int, u: Seq<Elem>)
    requires
        0 <= i <= s.len(),
        u.len() == i,
    ensures
        conv_from(u + conv_from(s, i), i) == conv_from(s, i),
    decreases s.len() - i,
{
    let c = conv_from(s, i);
    let t = u + c;
    lemma_conv_from_len(s, i);
    if i >= s.len() {
        assert(conv_from(t, i) =~= c);
    } else if !is_recognized_header(s[i]) {
        let c1 = conv_from(s, i + 1);
        lemma_conv_from_len(s, i + 1);
        assert(t[i] == s[i]);
        lemma_conv_from_stitch(s, i + 1, u + seq![s[i]]);
        assert((u + seq![s[i]]) + c1 =~= t);
        assert(conv_from(t, i) =~= c);
    } else {
        let e = run_end(s, i + 1);
        lemma_run_end_bounds(s, i + 1);
        lemma_run_end_char(s, i + 1);
        let p = header_policy(s[i]);
        let sub = s.subrange(i + 1, e);
        let r = reorder_section(sub, p);
        lemma_reorder_section_frame(sub, p);
        let c2 = conv_from(s, e);
        lemma_conv_from_len(s, e);
        assert(t =~= (u + seq![s[i]] + r) + c2);
        assert(t[i] == s[i]);
        // the rewritten run neither starts nor ends a run elsewhere
        assert forall|k: int| i + 1 <= k < e implies !run_stop(t[k]) by {
            assert(t[k] == r[k - (i + 1)]);
            assert(sub[k - (i + 1)] == s[k]);
            assert(r[k - (i + 1)].is_entry == sub[k - (i + 1)].is_entry);
            if !sub[k - (i + 1)].is_entry {
                assert(r[k - (i + 1)] == sub[k - (i + 1)]);
            }
        }
        if e < s.len() {
            assert(t[e] == c2[0]);
            assert(c2[0] == s[e]);
            assert(run_stop(t[e]));
        }
        lemma_run_end_of(t, i + 1, e);
        assert(t.subrange(i + 1, e) =~= r);
        lemma_reorder_section_idempotent(sub, p);
        assert(reorder_section(t.subrange(i + 1, e), header_policy(t[i])) == r);
        lemma_conv_from_stitch(s, e, u + seq![s[i]] + r);
        assert((u + seq![s[i]] + r) + c2 =~= t);
        assert(conv_from(t, e) == c2);
        assert(conv_from(t, i) =~= c);
    }
}

/// Law: the convention engine is idempotent — applying the structural
/// conventions to an already normalized document changes nothing, so a
/// second formatting pass finds every recognized section already in order.
pub proof fn lemma_conventions_idempotent(s: Seq<Elem>)
    ensures
        apply_conventions_spec(apply_conventions_spec(s)) == apply_conventions_spec(s),
{
    lemma_conv_from_stitch(s, 0, Seq::<Elem>::empty());
    assert(Seq::<Elem>::empty() + conv_from(s, 0) =~= conv_from(s, 0));
}

/// Every element of `s` is the element of `orig` that its `index` names.
pub open spec fn from_doc(s: Seq<Elem>, orig: Seq<Elem>) -> bool {
    forall|q: int|
        0 <= q < s.len() ==> #[trigger] s[q].index < orig.len() && orig[s[q].index as int] == s[q]
}

proof fn lemma_insert_from(p: SectionPolicy, e: Elem, s: Seq<Elem>, orig: Seq<Elem>)
    requires
        from_doc(s, orig),
        e.index < orig.len(),
        orig[e.index as int] == e,
    ensures
        from_doc(insert_sorted(p, e, s), orig),
{
    lemma_insert_pos_props(p, e, s);
    let pos = insert_pos(p, e, s);
    let r = insert_sorted(p, e, s);
    assert forall|q: int|
        0 <= q < r.len() implies r[q].index < orig.len() && orig[r[q].index as int] == r[q] by {
        if q < pos {
            assert(r[q] == s[q]);
        } else if q == pos {
            assert(r[q] == e);
        } else {
            assert(r[q] == s[q - 1]);
        }
    }
}

proof fn lemma_sort_from(p: SectionPolicy, s: Seq<Elem>, orig: Seq<Elem>)
    requires
        from_doc(s, orig),
    ensures
        from_doc(sort_entries(p, s), orig),
    decreases s.len(),
{
    if s.len() > 0 {
        assert(from_doc(s.drop_last(), orig)) by {
            assert(forall|q: int| 0 <= q < s.len() - 1 ==> s.drop_last()[q] == s[q]);
        }
        lemma_sort_from(p, s.drop_last(), orig);
        assert(s.last() == s[s.len() - 1]);
        lemma_insert_from(p, s.last(), sort_entries(p, s.drop_last()), orig);
    }
}

proof fn lemma_entries_of_from(s: Seq<Elem>, e: int, orig: Seq<Elem>)
    requires
        from_doc(s, orig),
        0 <= e <= s.len(),
    ensures
        from_doc(entries_of(s, e), orig),
    decreases e,
{
    if e > 0 {
        lemma_entries_of_from(s, e - 1, orig);
    }
}

proof fn lemma_assign_from(s: Seq<Elem>, slots: Seq<int>, vals: Seq<Elem>, orig: Seq<Elem>)
    requires
        from_doc(s, orig),
        from_doc(vals, orig),
        vals.len() == slots.len(),
        forall|t: int| 0 <= t < slots.len() ==> 0 <= #[trigger] slots[t] < s.len(),
        forall|t1: int, t2: int|
            0 <= t1 < t2 < slots.len() ==> #[trigger] slots[t1] < #[trigger] slots[t2],
    ensures
        from_doc(assign_slots(s, slots, vals), orig),
{
    lemma_assign_props(s, slots, vals);
    let r = assign_slots(s, slots, vals);
    assert forall|q: int|
        0 <= q < r.len() implies r[q].index < orig.len() && orig[r[q].index as int] == r[q] by {
        if slot_member(slots, q) {
            let t = choose|t: int| 0 <= t < slots.len() && slots[t] == q;
            assert(r[slots[t]] == vals[t]);
        } else {
            assert(r[q] == s[q]);
        }
    }
}

proof fn lemma_reorder_from(sub: Seq<Elem>, p: SectionPolicy, orig: Seq<Elem>)
    requires
        from_doc(sub, orig),
    ensures
        from_doc(reorder_section(sub, p), orig),
{
    let n = sub.len() as int;
    lemma_entry_slots_props(sub, n);
    lemma_entries_of_from(sub, n, orig);
    lemma_sort_from(p, entries_of(sub, n), orig);
    lemma_sort_entries_len(p, entries_of(sub, n));
    lemma_assign_from(sub, entry_slots(sub, n), sort_entries(p, entries_of(sub, n)), orig);
}

/// Law: provenance — every element the convention engine emits is exactly
/// the input element that its `index` field names; nothing is invented.
pub proof fn lemma_conv_from_doc(s: Seq<Elem>, i: int, orig: Seq<Elem>)
    requires
        0 <= i <= s.len(),
        from_doc(s, orig),
    ensures
        from_doc(conv_from(s, i), orig),
    decreases s.len() - i,
{
    if i < s.len() {
        let c = conv_from(s, i);
        if is_recognized_header(s[i]) {
            let e = run_end(s, i + 1);
            lemma_run_end_bounds(s, i + 1);
            let sub = s.subrange(i + 1, e);
            assert(from_doc(sub, orig)) by {
                assert(forall|q: int| 0 <= q < e - (i + 1) ==> sub[q] == s[i + 1 + q]);
            }
            lemma_reorder_from(sub, header_policy(s[i]), orig);
            lemma_conv_from_doc(s, e, orig);
            let r = reorder_section(sub, header_policy(s[i]));
            let rest = conv_from(s, e);
            assert forall|q: int|
                0 <= q < c.len() implies c[q].index < orig.len() && orig[c[q].index as int]
                == c[q] by {
                if q == 0 {
                    assert(c[q] == s[i]);
                } else if q < 1 + r.len() {
                    assert(c[q] == r[q - 1]);
                } else {
                    assert(c[q] == rest[q - 1 - r.len()]);
                }
            }
        } else {
            lemma_conv_from_doc(s, i + 1, orig);
            let rest = conv_from(s, i + 1);
            assert forall|q: int|
                0 <= q < c.len() implies c[q].index < orig.len() && orig[c[q].index as int]
                == c[q] by {
                if q == 0 {
                    assert(c[q] == s[i]);
                } else {
                    assert(c[q] == rest[q - 1]);
                }
            }
        }
    }
}

fn clone_elem(e: &ElemInfo) -> (r: ElemInfo)
    ensures
        r@ == e@,
{
    ElemInfo {
        is_node: e.is_node,
        is_entry: e.is_entry,
        text: e.text.clone(),
        key: e.key.clone(),
        index: e.index,
    }
}

/// Lexicographic comparison of two strings, by code point.
fn str_lex_le(a: &String, b: &String) -> (r: bool)
    ensures
        r == lex_le(a@, b@),
{
    let an = a.as_str().unicode_len();
    let bn = b.as_str().unicode_len();
    let mut i: usize = 0;
    proof {
        assert(a@.skip(0) =~= a@);
        assert(b@.skip(0) =~= b@);
    }
    loop
        invariant
            an == a@.len(),
            bn == b@.len(),
            0 <= i <= an,
            0 <= i <= bn,
            lex_le(a@, b@) == lex_le(a@.skip(i as int), b@.skip(i as int)),
        decreases an - i,
    {
        if i >= an {
            proof {
                assert(a@.skip(i as int).len() == 0);
            }
            return true;
        }
        if i >= bn {
            proof {
                assert(b@.skip(i as int).len() == 0);
                assert(a@.skip(i as int).len() > 0);
            }
            return false;
        }
        let ca = a.as_str().get_char(i);
        let cb = b.as_str().get_char(i);
        proof {
            assert(a@.skip(i as int)[0] == a@[i as int]);
            assert(b@.skip(i as int)[0] == b@[i as int]);
        }
        if ca as u32 != cb as u32 {
            return (ca as u32) < (cb as u32);
        }
        proof {
            assert(a@.skip(i as int).skip(1) =~= a@.skip(i + 1));
            assert(b@.skip(i as int).skip(1) =~= b@.skip(i + 1));
        }
        i = i + 1;
    }
}

/// The package-identity bucket of a key.
fn key_rank(key: &String) -> (r: u8)
    ensures
        r as int == package_rank(key@),
{
    let name = String::from_str("name");
    let version = String::from_str("version");
    let description = String::from_str("description");
    if key.eq(&name) {
        0
    } else if key.eq(&version) {
        1
    } else if key.eq(&description) {
        3
    } else {
        2
    }
}

/// Whether `a` sorts at or before `b` under the policy.
fn entry_le_exec(p: SectionPolicy, a: &String, b: &String) -> (r: bool)
    ensures
        r == entry_le(p, a@, b@),
{
    match p {
        SectionPolicy::PackageIdentity => {
            let ra = key_rank(a);
            let rb = key_rank(b);
            if ra < rb {
                true
            } else if ra > rb {
                false
            } else if ra == 2 {
                str_lex_le(a, b)
            } else {
                true
            }
        },
        SectionPolicy::Lexicographic => str_lex_le(a, b),
    }
}

/// The position where an entry belongs in an already sorted run: after
/// every element at or below it, before the first one above it.
fn find_insert_pos(p: SectionPolicy, v: &Vec<ElemInfo>, e: &ElemInfo) -> (pos: usize)
    ensures
        0 <= pos <= v@.len(),
        forall|j: int| 0 <= j < pos ==> entry_le(p, ems(v@)[j].key, e@.key),
        pos < v@.len() ==> !entry_le(p, ems(v@)[pos as int].key, e@.key),
{
    let n = v.len();
    let mut k: usize = 0;
    while k < n
        invariant
            n == v@.len(),
            0 <= k <= n,
            forall|j: int| 0 <= j < k ==> entry_le(p, ems(v@)[j].key, e@.key),
        decreases n - k,
    {
        proof {
            assert(ems(v@)[k as int] == v@[k as int]@);
        }
        if !entry_le_exec(p, &v[k].key, &e.key) {
            return k;
        }
        k = k + 1;
    }
    n
}

/// Inserts one entry into an already sorted run, after all its equals.
fn insert_sorted_exec(p: SectionPolicy, mut v: Vec<ElemInfo>, e: ElemInfo) -> (out: Vec<ElemInfo>)
    ensures
        ems(out@) == insert_sorted(p, e@, ems(v@)),
{
    let pos = find_insert_pos(p, &v, &e);
    proof {
        lemma_insert_sorted_pos(p, e@, ems(v@), pos as int);
    }
    let ghost old_v = v@;
    v.insert(pos, e);
    proof {
        assert(ems(v@) =~= ems(old_v).subrange(0, pos as int) + seq![e@] + ems(old_v).subrange(
            pos as int,
            old_v.len() as int,
        ));
    }
    v
}

/// First position at or after `j` that holds a node other than an entry.
fn find_run_end(elems: &Vec<ElemInfo>, j: usize) -> (r: usize)
    requires
        j <= elems@.len(),
    ensures
        r as int == run_end(ems(elems@), j as int),
        j <= r <= elems@.len(),
{
    let n = elems.len();
    let mut k: usize = j;
    while k < n
        invariant
            n == elems@.len(),
            j <= k <= n,
            run_end(ems(elems@), j as int) == run_end(ems(elems@), k as int),
        decreases n - k,
    {
        proof {
            assert(ems(elems@)[k as int] == elems@[k as int]@);
        }
        if elems[k].is_node && !elems[k].is_entry {
            return k;
        }
        k = k + 1;
    }
    n
}

/// Reorders the entries of one section's element range under a policy,
/// leaving every token and non-entry element in place.
fn reorder_section_exec(sub: Vec<ElemInfo>, p: SectionPolicy) -> (out: Vec<ElemInfo>)
    ensures
        ems(out@) == reorder_section(ems(sub@), p),
{
    let ghost m = ems(sub@);
    let n = sub.len();

    let mut slots: Vec<usize> = Vec::new();
    let mut ents: Vec<ElemInfo> = Vec::new();
    let mut t: usize = 0;
    while t < n
        invariant
            n == sub@.len(),
            0 <= t <= n,
            m == ems(sub@),
            slots@.map_values(|x: usize| x as int) == entry_slots(m, t as int),
            ems(ents@) == entries_of(m, t as int),
            forall|q: int| 0 <= q < slots@.len() ==> slots@[q] < n,
        decreases n - t,
    {
        proof {
            assert(m[t as int] == sub@[t as int]@);
        }
        if sub[t].is_entry {
            slots.push(t);
            ents.push(clone_elem(&sub[t]));
            proof {
                assert(slots@.map_values(|x: usize| x as int) =~= entry_slots(m, t + 1));
                assert(ems(ents@) =~= entries_of(m, t + 1));
            }
        } else {
            proof {
                assert(slots@.map_values(|x: usize| x as int) =~= entry_slots(m, t + 1));
                assert(ems(ents@) =~= entries_of(m, t + 1));
            }
        }
        t = t + 1;
    }

    let en = ents.len();
    let mut sorted: Vec<ElemInfo> = Vec::new();
    let mut u: usize = 0;
    while u < en
        invariant
            en == ents@.len(),
            0 <= u <= en,
            ems(sorted@) == sort_entries(p, ems(ents@).take(u as int)),
        decreases en - u,
    {
        proof {
            assert(ems(ents@).take(u + 1).drop_last() =~= ems(ents@).take(u as int));
            assert(ems(ents@).take(u + 1).last() == ems(ents@)[u as int]);
            assert(ems(ents@)[u as int] == ents@[u as int]@);
        }
        sorted = insert_sorted_exec(p, sorted, clone_elem(&ents[u]));
        u = u + 1;
    }
    proof {
        assert(ems(ents@).take(en as int) =~= ems(ents@));
        assert(ems(sorted@) == sort_entries(p, entries_of(m, n as int)));
        lemma_sort_entries_len(p, ems(ents@));
        lemma_entry_slots_len(m, n as int);
    }

    let sn = slots.len();
    let mut out = sub;
    let mut w: usize = 0;
    while w < sn
        invariant
            sn == slots@.len(),
            sn == sorted@.len(),
            0 <= w <= sn,
            out@.len() == m.len(),
            forall|q: int| 0 <= q < sn ==> slots@[q] < m.len(),
            ems(out@) == assign_slots(
                m,
                slots@.map_values(|x: usize| x as int).take(w as int),
                ems(sorted@).take(w as int),
            ),
        decreases sn - w,
    {
        let ghost sl = slots@.map_values(|x: usize| x as int);
        proof {
            assert(sl.take(w + 1).drop_last() =~= sl.take(w as int));
            assert(ems(sorted@).take(w + 1).drop_last() =~= ems(sorted@).take(w as int));
            assert(sl.take(w + 1).last() == sl[w as int]);
            assert(ems(sorted@).take(w + 1).last() == ems(sorted@)[w as int]);
            assert(ems(sorted@)[w as int] == sorted@[w as int]@);
            assert(sl.take(w + 1).len() > 0 && ems(sorted@).take(w + 1).len() > 0);
        }
        let idx = slots[w];
        let val = clone_elem(&sorted[w]);
        let ghost before = ems(out@);
        out.set(idx, val);
        proof {
            assert(ems(out@) =~= before.update(sl[w as int], sorted@[w as int]@));
            assert(ems(out@) =~= assign_slots(m, sl.take(w + 1), ems(sorted@).take(w + 1)));
        }
        w = w + 1;
    }
    proof {
        let sl = slots@.map_values(|x: usize| x as int);
        assert(sl.take(sn as int) =~= sl);
        assert(ems(sorted@).take(sn as int) =~= ems(sorted@));
        assert(sl == entry_slots(m, n as int));
    }
    out
}

proof fn lemma_entry_slots_len(s: Seq<Elem>, e: int)
    requires
        0 <= e <= s.len(),
    ensures
        entry_slots(s, e).len() == entries_of(s, e).len(),
    decreases e,
{
    if e > 0 {
        lemma_entry_slots_len(s, e - 1);
    }
}

/// Appends clones of all of `src` to `dst`.
fn append_all(dst: &mut Vec<ElemInfo>, src: &Vec<ElemInfo>)
    ensures
        ems(final(dst)@) == ems(old(dst)@) + ems(src@),
{
    let n = src.len();
    let mut t: usize = 0;
    while t < n
        invariant
            n == src@.len(),
            0 <= t <= n,
            ems(dst@) == ems(old(dst)@) + ems(src@).take(t as int),
        decreases n - t,
    {
        proof {
            assert(ems(src@)[t as int] == src@[t as int]@);
        }
        let ghost prev = ems(dst@);
        dst.push(clone_elem(&src[t]));
        proof {
            assert(ems(dst@) =~= prev + seq![ems(src@)[t as int]]);
            assert(ems(src@).take(t + 1) =~= ems(src@).take(t as int) + seq![ems(src@)[t as int]]);
            assert(ems(dst@) =~= ems(old(dst)@) + ems(src@).take(t + 1));
        }
        t = t + 1;
    }
    proof {
        assert(ems(src@).take(n as int) =~= ems(src@));
    }
}

/// Applies the package-manifest conventions to a document's top-level
/// element sequence: within each recognized section the entries are
/// reordered under that section's policy; every other element — tokens,
/// unrecognized sections, and the entries' own text — is kept exactly as
/// it was, in its original position.
pub fn apply_cargo_toml_conventions(elems: &Vec<ElemInfo>) -> (out: Vec<ElemInfo>)
    ensures
        ems(out@) == apply_conventions_spec(ems(elems@)),
{
    let ghost m = ems(elems@);
    let n = elems.len();
    let mut out: Vec<ElemInfo> = Vec::new();
    let mut i: usize = 0;
    while i < n
        invariant
            n == elems@.len(),
            m == ems(elems@),
            0 <= i <= n,
            ems(out@) + conv_from(m, i as int) == apply_conventions_spec(m),
        decreases n - i,
    {
        proof {
            assert(m[i as int] == elems@[i as int]@);
        }
        let pkg = is_package_header_exec(&elems[i]);
        let dep = is_dependency_header_exec(&elems[i]);
        if pkg || dep {
            let p = if pkg {
                SectionPolicy::PackageIdentity
            } else {
                SectionPolicy::Lexicographic
            };
            proof {
                assert(p == header_policy(m[i as int]));
            }
            let e = find_run_end(elems, i + 1);
            let mut sub: Vec<ElemInfo> = Vec::new();
            let mut t: usize = i + 1;
            while t < e
                invariant
                    i + 1 <= t <= e,
                    e <= elems@.len(),
                    m == ems(elems@),
                    ems(sub@) == m.subrange(i + 1, t as int),
                decreases e - t,
            {
                proof {
                    assert(ems(elems@)[t as int] == elems@[t as int]@);
                }
                let ghost prev = ems(sub@);
                sub.push(clone_elem(&elems[t]));
                proof {
                    assert(ems(sub@) =~= prev + seq![m[t as int]]);
                    assert(m.subrange(i + 1, t + 1) =~= m.subrange(i + 1, t as int) + seq![
                        m[t as int],
                    ]);
                    assert(ems(sub@) =~= m.subrange(i + 1, t + 1));
                }
                t = t + 1;
            }
            let reordered = reorder_section_exec(sub, p);
            out.push(clone_elem(&elems[i]));
            append_all(&mut out, &reordered);
            proof {
                assert(ems(out@) + conv_from(m, e as int) =~= apply_conventions_spec(m));
            }
            i = e;
        } else {
            out.push(clone_elem(&elems[i]));
            proof {
                assert(ems(out@) + conv_from(m, i + 1) =~= apply_conventions_spec(m));
            }
            i = i + 1;
        }
    }
    proof {
        assert(conv_from(m, n as int) =~= Seq::<Elem>::empty());
        assert(ems(out@) =~= apply_conventions_spec(m));
    }
    out
}

/// True exactly when the element is the package-identity section header.
fn is_package_header_exec(e: &ElemInfo) -> (r: bool)
    ensures
        r == is_package_header(e@),
{
    let h = String::from_str("[package]");
    e.is_node && e.text.eq(&h)
}

/// True exactly when the element is one of the two dependency-table headers.
fn is_dependency_header_exec(e: &ElemInfo) -> (r: bool)
    ensures
        r == is_dependency_header(e@),
{
    let d = String::from_str("[dependencies]");
    let dd = String::from_str("[dev-dependencies]");
    e.is_node && (e.text.eq(&d) || e.text.eq(&dd))
}

} // verus!
