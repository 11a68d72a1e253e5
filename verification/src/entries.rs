//! Directory entries and their listing order: directories sort before files,
//! and within each kind entries sort lexicographically by name.

use vstd::prelude::*;
use vstd::relations::{sorted_by, total_ordering};
use vstd::seq_lib::group_to_multiset_ensures;
use vstd::string::StrSliceExecFns;

verus! {

/// The kind of a directory child.
#[derive(Clone, Copy, PartialEq, Eq, Structural)]
pub enum EntryKind {
    Directory,
    File,
}

/// One child of a listed directory.
pub struct DirectoryEntry {
    pub name: String,
    pub kind: EntryKind,
}

/// The mathematical model of an entry: whether it is a directory, and its
/// name as a sequence of characters.
pub struct EntryModel {
    pub dir: bool,
    pub name: Seq<char>,
}

impl View for DirectoryEntry {
    type V = EntryModel;

    open spec fn view(&self) -> EntryModel {
        EntryModel { dir: self.kind is Directory, name: self.name@ }
    }
}

/// The models of a sequence of entries.
pub open spec fn models(s: Seq<DirectoryEntry>) -> Seq<EntryModel> {
    s.map_values(|e: DirectoryEntry| e@)
}

/// Lexicographic order on names, by character value; a proper prefix comes
/// before any of its extensions.
pub open spec fn lex_le(a: Seq<char>, b: Seq<char>) -> bool
    decreases a.len(),
{
    if a.len() == 0 {
        true
    } else if b.len() == 0 {
        false
    } else if a[0] == b[0] {
        lex_le(a.drop_first(), b.drop_first())
    } else {
        a[0] < b[0]
    }
}

/// The listing order: directories before files, then by name.
pub open spec fn entry_le(a: EntryModel, b: EntryModel) -> bool {
    if a.dir != b.dir {
        a.dir
    } else {
        lex_le(a.name, b.name)
    }
}

/// The listing order as a relation value, for `sorted_by` and `sort_by`.
pub open spec fn entry_order() -> spec_fn(EntryModel, EntryModel) -> bool {
    |a: EntryModel, b: EntryModel| entry_le(a, b)
}

proof fn lemma_lex_le_reflexive(a: Seq<char>)
    ensures
        lex_le(a, a),
    decreases a.len(),
{
    if a.len() > 0 {
        lemma_lex_le_reflexive(a.drop_first());
    }
}

proof fn lemma_lex_le_connected(a: Seq<char>, b: Seq<char>)
    ensures
        lex_le(a, b) || lex_le(b, a),
    decreases a.len(),
{
    if a.len() > 0 && b.len() > 0 && a[0] == b[0] {
        lemma_lex_le_connected(a.drop_first(), b.drop_first());
    } else if a.len() == 0 {
        assert(lex_le(a, b));
    } else if b.len() == 0 {
        assert(lex_le(b, a));
    } else {
        assert(a[0] != b[0]);
        if a[0] < b[0] {
            assert(lex_le(a, b));
        } else {
            assert(b[0] < a[0]);
            assert(lex_le(b, a));
        }
    }
}

proof fn lemma_lex_le_antisymmetric(a: Seq<char>, b: Seq<char>)
    requires
        lex_le(a, b),
        lex_le(b, a),
    ensures
        a == b,
    decreases a.len(),
{
    if a.len() > 0 && b.len() > 0 && a[0] == b[0] {
        lemma_lex_le_antisymmetric(a.drop_first(), b.drop_first());
        assert(a =~= seq![a[0]] + a.drop_first());
        assert(b =~= seq![b[0]] + b.drop_first());
    } else {
        assert(a.len() == 0 && b.len() == 0);
        assert(a =~= b);
    }
}

proof fn lemma_lex_le_transitive(a: Seq<char>, b: Seq<char>, c: Seq<char>)
    requires
        lex_le(a, b),
        lex_le(b, c),
    ensures
        lex_le(a, c),
    decreases a.len(),
{
    if a.len() > 0 && b.len() > 0 && c.len() > 0 && a[0] == b[0] && b[0] == c[0] {
        lemma_lex_le_transitive(a.drop_first(), b.drop_first(), c.drop_first());
    }
}

/// The listing order is a total ordering, so a sorted listing of given
/// entries is unique.
pub proof fn lemma_entry_order_total()
    ensures
        total_ordering(entry_order()),
{
    let leq = entry_order();
    assert forall|a: EntryModel| #[trigger] leq(a, a) by {
        lemma_lex_le_reflexive(a.name);
    }
    assert forall|a: EntryModel, b: EntryModel| !(#[trigger] leq(a, b)) implies leq(b, a) by {
        lemma_lex_le_connected(a.name, b.name);
    }
    assert forall|a: EntryModel, b: EntryModel| #[trigger] leq(a, b) && #[trigger] leq(b, a)
        implies a == b by {
        if a.dir == b.dir {
            lemma_lex_le_antisymmetric(a.name, b.name);
        }
    }
    assert forall|a: EntryModel, b: EntryModel, c: EntryModel|
        #[trigger] leq(a, b) && #[trigger] leq(b, c) implies leq(a, c) by {
        if a.dir == b.dir && b.dir == c.dir {
            lemma_lex_le_transitive(a.name, b.name, c.name);
        }
    }
}

/// Skipping an equal prefix does not change the lexicographic comparison.
proof fn lemma_lex_le_skip(a: Seq<char>, b: Seq<char>, i: int)
    requires
        0 <= i <= a.len(),
        i <= b.len(),
        forall|j: int| 0 <= j < i ==> a[j] == b[j],
    ensures
        lex_le(a, b) == lex_le(a.skip(i), b.skip(i)),
    decreases i,
{
    if i > 0 {
        assert(a.len() > 0 && b.len() > 0 && a[0] == b[0]);
        lemma_lex_le_skip(a.drop_first(), b.drop_first(), i - 1);
        assert(a.drop_first().skip(i - 1) =~= a.skip(i));
        assert(b.drop_first().skip(i - 1) =~= b.skip(i));
    } else {
        assert(a.skip(0) =~= a);
        assert(b.skip(0) =~= b);
    }
}

/// Compares two names in the lexicographic listing order.
fn name_le(a: &str, b: &str) -> (r: bool)
    ensures
        r == lex_le(a@, b@),
{
    let a_len = a.unicode_len();
    let b_len = b.unicode_len();
    let mut i: usize = 0;
    while i < a_len && i < b_len
        invariant
            i <= a_len,
            i <= b_len,
            a_len == a@.len(),
            b_len == b@.len(),
            forall|j: int| 0 <= j < i ==> a@[j] == b@[j],
        decreases a_len - i,
    {
        let ca = a.get_char(i);
        let cb = b.get_char(i);
        if ca != cb {
            proof {
                lemma_lex_le_skip(a@, b@, i as int);
            }
            return (ca as u32) < (cb as u32);
        }
        i = i + 1;
    }
    proof {
        lemma_lex_le_skip(a@, b@, i as int);
    }
    a_len <= b_len
}

/// Compares two entries in the listing order.
fn entry_le_exec(a: &DirectoryEntry, b: &DirectoryEntry) -> (r: bool)
    ensures
        r == entry_le(a@, b@),
{
    let a_dir = matches!(a.kind, EntryKind::Directory);
    let b_dir = matches!(b.kind, EntryKind::Directory);
    if a_dir != b_dir {
        a_dir
    } else {
        name_le(a.name.as_str(), b.name.as_str())
    }
}

/// Sorts entries into the listing order: directories first, then files, each
/// group alphabetically by name. The result holds exactly the given entries.
pub fn sort_entries(entries: Vec<DirectoryEntry>) -> (r: Vec<DirectoryEntry>)
    ensures
        sorted_by(models(r@), entry_order()),
        models(r@).to_multiset() == models(entries@).to_multiset(),
{
    broadcast use group_to_multiset_ensures;

    let mut rest = entries;
    let mut out: Vec<DirectoryEntry> = Vec::new();
    proof {
        lemma_entry_order_total();
        assert(models(out@) =~= Seq::<EntryModel>::empty());
    }
    while rest.len() > 0
        invariant
            total_ordering(entry_order()),
            sorted_by(models(out@), entry_order()),
            models(out@).to_multiset().add(models(rest@).to_multiset()) == models(
                entries@,
            ).to_multiset(),
        decreases rest@.len(),
    {
        let ghost old_rest = rest@;
        let e = rest.pop().unwrap();
        proof {
            assert(old_rest.drop_last().push(e) =~= old_rest);
            assert(models(old_rest.drop_last()).push(e@) =~= models(old_rest));
            assert(models(rest@) =~= models(old_rest.drop_last()));
        }
        let mut idx: usize = 0;
        while idx < out.len() && entry_le_exec(&out[idx], &e)
            invariant
                idx <= out@.len(),
                forall|j: int| 0 <= j < idx ==> entry_le(#[trigger] models(out@)[j], e@),
            decreases out@.len() - idx,
        {
            idx = idx + 1;
        }
        let ghost old_out = out@;
        let ghost old_rest2 = rest@;
        let ghost ins = idx as int;
        out.insert(idx, e);
        proof {
            broadcast use group_to_multiset_ensures;

            assert(models(out@) =~= models(old_out).insert(ins, e@));
            lemma_sorted_insert(models(old_out), e@, ins);
            lemma_to_multiset_insert(models(old_out), e@, ins);
            assert(models(old_out).to_multiset().insert(e@).add(
                models(old_rest2).to_multiset(),
            ) =~= models(old_out).to_multiset().add(models(old_rest2).to_multiset().insert(e@)));
            assert(models(old_rest2).to_multiset().insert(e@) =~= models(old_rest2).push(
                e@,
            ).to_multiset());
            assert(models(old_rest2).push(e@) =~= models(old_rest));
        }
    }
    proof {
        assert(models(rest@) =~= Seq::<EntryModel>::empty());
        assert(models(out@).to_multiset() =~= models(entries@).to_multiset());
    }
    out
}

/// The listing order on two directories and two files: any listing in the
/// sorted order that holds exactly the entries `d1`, `d2` (directories, `d1`
/// at or before `d2` by name) and `f1`, `f2` (files, `f1` at or before `f2`
/// by name) renders them as `d1`, `d2`, `f1`, `f2`.
pub proof fn lemma_listing_order_two_dirs_two_files(
    s: Seq<EntryModel>,
    d1: EntryModel,
    d2: EntryModel,
    f1: EntryModel,
    f2: EntryModel,
)
    requires
        d1.dir,
        d2.dir,
        !f1.dir,
        !f2.dir,
        lex_le(d1.name, d2.name),
        lex_le(f1.name, f2.name),
        sorted_by(s, entry_order()),
        s.to_multiset() == seq![d1, d2, f1, f2].to_multiset(),
    ensures
        s == seq![d1, d2, f1, f2],
{
    let y = seq![d1, d2, f1, f2];
    let leq = entry_order();
    lemma_entry_order_total();
    assert(y[0] == d1 && y[1] == d2 && y[2] == f1 && y[3] == f2);
    assert(leq(d1, d2) && leq(d1, f1) && leq(d1, f2));
    assert(leq(d2, f1) && leq(d2, f2) && leq(f1, f2));
    assert(sorted_by(y, leq));
    vstd::seq_lib::lemma_sorted_unique(s, y, leq);
    assert(s =~= y);
}

/// Inserting at the first position whose entry is not below the new one
/// keeps the sequence sorted.
proof fn lemma_sorted_insert(s: Seq<EntryModel>, e: EntryModel, i: int)
    requires
        total_ordering(entry_order()),
        sorted_by(s, entry_order()),
        0 <= i <= s.len(),
        forall|j: int| 0 <= j < i ==> entry_le(#[trigger] s[j], e),
        i < s.len() ==> !entry_le(s[i], e),
    ensures
        sorted_by(s.insert(i, e), entry_order()),
{
    let t = s.insert(i, e);
    let leq = entry_order();
    assert forall|p: int, q: int| 0 <= p < q < t.len() implies leq(t[p], t[q]) by {
        if p < i && q == i {
            assert(t[p] == s[p] && t[q] == e);
        } else if p == i && q > i {
            assert(t[p] == e && t[q] == s[q - 1]);
            assert(q - 1 >= i);
            if q - 1 == i {
                assert(!leq(s[i], e));
                assert(leq(e, s[i]));
            } else {
                assert(leq(s[i], s[q - 1]));
                assert(!leq(s[i], e));
                assert(leq(e, s[i]));
            }
        } else if p < i && q > i {
            assert(t[p] == s[p] && t[q] == s[q - 1]);
            assert(p < q - 1);
            assert(leq(s[p], s[q - 1]));
        } else if i < p {
            assert(t[p] == s[p - 1] && t[q] == s[q - 1]);
            assert(leq(s[p - 1], s[q - 1]));
        } else {
            assert(q < i);
            assert(t[p] == s[p] && t[q] == s[q]);
            assert(leq(s[p], s[q]));
        }
    }
}

/// Inserting an element adds exactly it to the multiset of the sequence.
proof fn lemma_to_multiset_insert(s: Seq<EntryModel>, e: EntryModel, i: int)
    requires
        0 <= i <= s.len(),
    ensures
        s.insert(i, e).to_multiset() == s.to_multiset().insert(e),
    decreases s.len() - i,
{
    broadcast use group_to_multiset_ensures;

    if i == s.len() {
        assert(s.insert(i, e) =~= s.push(e));
        assert(s.push(e).to_multiset() =~= s.to_multiset().insert(e));
    } else {
        let t = s.insert(i, e);
        assert(t.remove(i) =~= s);
        assert(t[i] == e);
        assert(t.remove(i).to_multiset() =~= t.to_multiset().remove(e));
        assert(t.to_multiset().contains(e));
        assert(t.to_multiset() =~= t.to_multiset().remove(e).insert(e));
        assert(t.to_multiset() =~= s.to_multiset().insert(e));
    }
}

} // verus!
