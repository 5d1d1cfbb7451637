//! Ordering of directory listings.
//!
//! A directory's children are listed directories first, then in
//! case-insensitive name order.  The order is realized by a stable insertion
//! sort whose exact output is a specification function, so a listing is a
//! pure function of the entries handed in.

use vstd::prelude::*;
use vstd::seq_lib::group_to_multiset_ensures;

use crate::text::{lemma_lex_le_total, lemma_lex_le_trans, lex_le, lower_of, str_lex_le};

verus! {

/// View of one directory entry for ordering purposes: its name and whether
/// it is a directory.
pub type EntryV = (Seq<char>, bool);

/// The listing order: directories before files; within one kind,
/// lexicographic order of the lowercased names.
pub open spec fn entry_le(a: EntryV, b: EntryV) -> bool {
    if a.1 != b.1 {
        a.1
    } else {
        lex_le(lower_of(a.0), lower_of(b.0))
    }
}

/// The listing order is total.
pub proof fn lemma_entry_le_total(a: EntryV, b: EntryV)
    ensures
        entry_le(a, b) || entry_le(b, a),
{
    if a.1 == b.1 {
        lemma_lex_le_total(lower_of(a.0), lower_of(b.0));
    }
}

/// The listing order is transitive.
pub proof fn lemma_entry_le_trans(a: EntryV, b: EntryV, c: EntryV)
    requires
        entry_le(a, b),
        entry_le(b, c),
    ensures
        entry_le(a, c),
{
    if a.1 == b.1 && b.1 == c.1 {
        lemma_lex_le_trans(lower_of(a.0), lower_of(b.0), lower_of(c.0));
    }
}

/// Whether each entry is ordered before its successor.
pub open spec fn entries_sorted(s: Seq<EntryV>) -> bool {
    forall|i: int| 0 <= i < s.len() - 1 ==> #[trigger] entry_le(s[i], s[i + 1])
}

proof fn lemma_sorted_adjacent(s: Seq<EntryV>, i: int)
    requires
        entries_sorted(s),
        0 <= i < s.len() - 1,
    ensures
        entry_le(s[i], s[i + 1]),
{
}

/// In a sorted listing every entry is ordered before every later one, not
/// just its neighbor.
pub proof fn lemma_sorted_pairwise(s: Seq<EntryV>, i: int, j: int)
    requires
        entries_sorted(s),
        0 <= i < j < s.len(),
    ensures
        entry_le(s[i], s[j]),
    decreases j - i,
{
    if j == i + 1 {
        lemma_sorted_adjacent(s, i);
    } else {
        lemma_sorted_pairwise(s, i, j - 1);
        lemma_sorted_adjacent(s, j - 1);
        lemma_entry_le_trans(s[i], s[j - 1], s[j]);
    }
}

/// Where one new entry lands in an already built listing: after every entry
/// ordered before it, before the rest.
pub open spec fn insert_sorted(s: Seq<EntryV>, x: EntryV) -> Seq<EntryV>
    decreases s.len(),
{
    if s.len() == 0 {
        seq![x]
    } else if entry_le(s.last(), x) {
        s.push(x)
    } else {
        insert_sorted(s.drop_last(), x).push(s.last())
    }
}

/// The sorted listing of a sequence of entries: each inserted in turn into
/// the listing of the ones before it.
pub open spec fn sort_entries(s: Seq<EntryV>) -> Seq<EntryV>
    decreases s.len(),
{
    if s.len() == 0 {
        s
    } else {
        insert_sorted(sort_entries(s.drop_last()), s.last())
    }
}

proof fn lemma_insert_len(s: Seq<EntryV>, x: EntryV)
    ensures
        insert_sorted(s, x).len() == s.len() + 1,
    decreases s.len(),
{
    if s.len() > 0 && !entry_le(s.last(), x) {
        lemma_insert_len(s.drop_last(), x);
    }
}

proof fn lemma_insert_last(s: Seq<EntryV>, x: EntryV)
    ensures
        insert_sorted(s, x).last() == x || (s.len() > 0 && insert_sorted(s, x).last() == s.last()),
{
    lemma_insert_len(s, x);
}

/// Inserting preserves sortedness.
proof fn lemma_insert_sorted_keeps_sorted(s: Seq<EntryV>, x: EntryV)
    requires
        entries_sorted(s),
    ensures
        entries_sorted(insert_sorted(s, x)),
    decreases s.len(),
{
    lemma_insert_len(s, x);
    if s.len() == 0 {
    } else if entry_le(s.last(), x) {
        let r = s.push(x);
        assert forall|i: int| 0 <= i < r.len() - 1 implies #[trigger] entry_le(r[i], r[i + 1]) by {
            if i < s.len() - 1 {
                assert(entry_le(s[i], s[i + 1]));
            }
        }
    } else {
        let t = s.drop_last();
        assert(entries_sorted(t)) by {
            assert forall|i: int| 0 <= i < t.len() - 1 implies #[trigger] entry_le(t[i], t[i + 1])
            by {
                assert(entry_le(s[i], s[i + 1]));
            }
        }
        lemma_insert_sorted_keeps_sorted(t, x);
        let r0 = insert_sorted(t, x);
        lemma_insert_len(t, x);
        let r = r0.push(s.last());
        lemma_entry_le_total(s.last(), x);
        lemma_insert_last(t, x);
        if t.len() > 0 {
            assert(entry_le(t.last(), s.last())) by {
                lemma_sorted_adjacent(s, s.len() - 2);
            }
        }
        assert forall|i: int| 0 <= i < r.len() - 1 implies #[trigger] entry_le(r[i], r[i + 1]) by {
            if i < r0.len() - 1 {
                assert(entry_le(r0[i], r0[i + 1]));
            } else {
                assert(r[i] == r0.last());
                assert(r[i + 1] == s.last());
            }
        }
    }
}

/// Inserting adds exactly the new entry.
proof fn lemma_insert_multiset(s: Seq<EntryV>, x: EntryV)
    ensures
        insert_sorted(s, x).to_multiset() == s.to_multiset().insert(x),
    decreases s.len(),
{
    broadcast use group_to_multiset_ensures;

    if s.len() == 0 {
        assert(insert_sorted(s, x) =~= Seq::<EntryV>::empty().push(x));
        assert(Seq::<EntryV>::empty().push(x).to_multiset() =~= Seq::<
            EntryV,
        >::empty().to_multiset().insert(x));
    } else if entry_le(s.last(), x) {
    } else {
        let t = s.drop_last();
        lemma_insert_multiset(t, x);
        assert(t.push(s.last()) =~= s);
        assert(insert_sorted(s, x).to_multiset() =~= s.to_multiset().insert(x)) by {
            assert(insert_sorted(s, x) == insert_sorted(t, x).push(s.last()));
            assert(insert_sorted(t, x).push(s.last()).to_multiset() =~= insert_sorted(
                t,
                x,
            ).to_multiset().insert(s.last()));
            assert(t.push(s.last()).to_multiset() =~= t.to_multiset().insert(s.last()));
        }
    }
}

/// The sorted listing is sorted — every entry ordered before every later
/// one — and holds exactly the entries given, reordered.
pub proof fn lemma_sort_entries_props(s: Seq<EntryV>)
    ensures
        entries_sorted(sort_entries(s)),
        sort_entries(s).to_multiset() == s.to_multiset(),
        sort_entries(s).len() == s.len(),
    decreases s.len(),
{
    broadcast use group_to_multiset_ensures;

    if s.len() == 0 {
    } else {
        let t = s.drop_last();
        lemma_sort_entries_props(t);
        lemma_insert_sorted_keeps_sorted(sort_entries(t), s.last());
        lemma_insert_multiset(sort_entries(t), s.last());
        lemma_insert_len(sort_entries(t), s.last());
        assert(t.push(s.last()) =~= s);
        assert(t.push(s.last()).to_multiset() =~= t.to_multiset().insert(s.last()));
    }
}

/// Where the exec scan inserts, the spec insert lands too.
proof fn lemma_insert_at_position(s: Seq<EntryV>, x: EntryV, j: int)
    requires
        0 <= j <= s.len(),
        forall|k: int| j <= k < s.len() ==> !entry_le(#[trigger] s[k], x),
        j == 0 || entry_le(s[j - 1], x),
    ensures
        insert_sorted(s, x) == s.subrange(0, j) + seq![x] + s.subrange(j, s.len() as int),
    decreases s.len(),
{
    if j == s.len() {
        if s.len() == 0 {
            assert(insert_sorted(s, x) =~= s.subrange(0, j) + seq![x] + s.subrange(
                j,
                s.len() as int,
            ));
        } else {
            assert(entry_le(s.last(), x));
            assert(insert_sorted(s, x) =~= s.subrange(0, j) + seq![x] + s.subrange(
                j,
                s.len() as int,
            ));
        }
    } else {
        assert(!entry_le(s.last(), x));
        let t = s.drop_last();
        lemma_insert_at_position(t, x, j);
        assert(insert_sorted(s, x) == insert_sorted(t, x).push(s.last()));
        assert((t.subrange(0, j) + seq![x] + t.subrange(j, t.len() as int)).push(s.last()) =~= s
            .subrange(0, j) + seq![x] + s.subrange(j, s.len() as int));
    }
}

/// One directory entry prepared for sorting: its name, the lowercased name
/// it is ordered by, and whether it is a directory.
pub struct SortEntry {
    pub name: String,
    pub lower: String,
    pub is_directory: bool,
}

impl SortEntry {
    /// The lowercased key really is the lowercased name.
    pub open spec fn keyed(self) -> bool {
        self.lower@ == lower_of(self.name@)
    }

    /// The entry as the ordering sees it.
    pub open spec fn view_entry(self) -> EntryV {
        (self.name@, self.is_directory)
    }
}

/// The ordering views of a sequence of prepared entries.
pub open spec fn views_of(s: Seq<SortEntry>) -> Seq<EntryV> {
    s.map_values(|e: SortEntry| e.view_entry())
}

/// Compares two prepared entries in the listing order.
fn entry_le_exec(a: &SortEntry, b: &SortEntry) -> (r: bool)
    requires
        a.keyed(),
        b.keyed(),
    ensures
        r == entry_le(a.view_entry(), b.view_entry()),
{
    if a.is_directory != b.is_directory {
        a.is_directory
    } else {
        str_lex_le(a.lower.as_str(), b.lower.as_str())
    }
}

/// The index at which a new entry is inserted: after every entry ordered
/// before it.
fn insert_position(out: &Vec<SortEntry>, x: &SortEntry) -> (j: usize)
    requires
        forall|k: int| 0 <= k < out@.len() ==> (#[trigger] out@[k]).keyed(),
        x.keyed(),
    ensures
        0 <= j <= out@.len(),
        forall|k: int|
            j <= k < out@.len() ==> !entry_le((#[trigger] out@[k]).view_entry(), x.view_entry()),
        j == 0 || entry_le(out@[j - 1].view_entry(), x.view_entry()),
{
    let mut j: usize = out.len();
    loop
        invariant
            0 <= j <= out@.len(),
            forall|k: int| 0 <= k < out@.len() ==> (#[trigger] out@[k]).keyed(),
            x.keyed(),
            forall|k: int|
                j <= k < out@.len() ==> !entry_le(
                    (#[trigger] out@[k]).view_entry(),
                    x.view_entry(),
                ),
        decreases j,
    {
        if j == 0 {
            return 0;
        }
        if entry_le_exec(&out[j - 1], x) {
            return j;
        }
        j = j - 1;
    }
}

/// Inserts one prepared entry into an already built listing at its place in
/// the listing order.
fn insert_entry(out: &mut Vec<SortEntry>, x: SortEntry)
    requires
        forall|k: int| 0 <= k < old(out)@.len() ==> (#[trigger] old(out)@[k]).keyed(),
        x.keyed(),
    ensures
        views_of(final(out)@) == insert_sorted(views_of(old(out)@), x.view_entry()),
        forall|k: int| 0 <= k < final(out)@.len() ==> (#[trigger] final(out)@[k]).keyed(),
{
    let ghost s = views_of(out@);
    let j = insert_position(out, &x);
    proof {
        assert forall|k: int| j <= k < s.len() implies !entry_le(#[trigger] s[k], x.view_entry())
        by {
            assert(s[k] == out@[k].view_entry());
        }
        lemma_insert_at_position(s, x.view_entry(), j as int);
    }
    out.insert(j, x);
    proof {
        assert(views_of(out@) =~= s.subrange(0, j as int) + seq![x.view_entry()] + s.subrange(
            j as int,
            s.len() as int,
        ));
    }
}

/// Sorts prepared entries into the listing order.  The result is the
/// specification listing of the input views: an exact function of the
/// entries handed in.
pub(crate) fn sort_dir_entries(input: Vec<SortEntry>) -> (out: Vec<SortEntry>)
    requires
        forall|k: int| 0 <= k < input@.len() ==> (#[trigger] input@[k]).keyed(),
    ensures
        views_of(out@) == sort_entries(views_of(input@)),
        forall|k: int| 0 <= k < out@.len() ==> (#[trigger] out@[k]).keyed(),
{
    let ghost full = views_of(input@);
    let mut rest = input;
    let mut out: Vec<SortEntry> = Vec::new();
    let ghost mut done: Seq<EntryV> = Seq::empty();
    proof {
        assert(views_of(out@) =~= sort_entries(done));
        assert(done + views_of(rest@) =~= full);
    }
    while rest.len() > 0
        invariant
            forall|k: int| 0 <= k < rest@.len() ==> (#[trigger] rest@[k]).keyed(),
            forall|k: int| 0 <= k < out@.len() ==> (#[trigger] out@[k]).keyed(),
            views_of(out@) == sort_entries(done),
            done + views_of(rest@) == full,
        decreases rest@.len(),
    {
        let ghost old_rest = rest@;
        let e = rest.remove(0);
        let ghost ev = e.view_entry();
        insert_entry(&mut out, e);
        proof {
            assert(done.push(ev).drop_last() =~= done);
            assert(done.push(ev).last() == ev);
            assert(sort_entries(done.push(ev)) == insert_sorted(sort_entries(done), ev));
            done = done.push(ev);
            assert(done + views_of(rest@) =~= full);
        }
    }
    proof {
        assert(done =~= full);
    }
    out
}

} // verus!
