//! Directory listing.
//!
//! The immediate children of a resolved directory arrive as raw records
//! (name, directory bit, and the metadata snapshot if the stat worked).
//! Children whose stat failed are dropped silently; the rest are sorted —
//! directories before files, then case-insensitive name — and summary
//! statistics are computed over the surviving, sorted rows.

use vstd::prelude::*;
use crate::fingerprint::MetaFields;
use vstd::multiset::Multiset;

verus! {

/// One enumerated child before filtering: the metadata is `None` when the
/// stat failed (permission denied, dangling symlink, vanished file).
#[derive(Debug)]
pub struct Child {
    pub name: Vec<u8>,
    pub is_dir: bool,
    pub meta: Option<MetaFields>,
}

/// One listing row.
#[derive(Debug)]
pub struct DirEntry {
    pub name: Vec<u8>,
    pub is_dir: bool,
    pub meta: MetaFields,
}

/// Mathematical view of a child record.
pub struct SpecChild {
    pub name: Seq<u8>,
    pub is_dir: bool,
    pub meta: Option<MetaFields>,
}

/// Mathematical view of a listing row.
pub struct SpecEntry {
    pub name: Seq<u8>,
    pub is_dir: bool,
    pub meta: MetaFields,
}

impl View for Child {
    type V = SpecChild;

    open spec fn view(&self) -> SpecChild {
        SpecChild { name: self.name@, is_dir: self.is_dir, meta: self.meta }
    }
}

impl View for DirEntry {
    type V = SpecEntry;

    open spec fn view(&self) -> SpecEntry {
        SpecEntry { name: self.name@, is_dir: self.is_dir, meta: self.meta }
    }
}

/// View of a list of children.
pub open spec fn children_view(v: Seq<Child>) -> Seq<SpecChild> {
    Seq::new(v.len(), |i: int| v[i]@)
}

/// View of a list of rows.
pub open spec fn entries_view(v: Seq<DirEntry>) -> Seq<SpecEntry> {
    Seq::new(v.len(), |i: int| v[i]@)
}

/// The rows that survive enumeration: children in order, those whose
/// stat failed dropped.
pub open spec fn spec_surviving(cs: Seq<SpecChild>) -> Seq<SpecEntry>
    decreases cs.len(),
{
    if cs.len() == 0 {
        Seq::empty()
    } else {
        let prefix = spec_surviving(cs.drop_last());
        match cs.last().meta {
            Some(m) => prefix.push(
                SpecEntry { name: cs.last().name, is_dir: cs.last().is_dir, meta: m },
            ),
            None => prefix,
        }
    }
}

/// Copy a byte string.
fn copy_bytes(v: &Vec<u8>) -> (r: Vec<u8>)
    ensures
        r@ == v@,
{
    let r = v.clone();
    proof {
        assert(r@ =~= v@);
    }
    r
}

/// Keep the children whose stat succeeded, in order, as listing rows.
pub fn visit_dir(children: &Vec<Child>) -> (r: Vec<DirEntry>)
    ensures
        entries_view(r@) == spec_surviving(children_view(children@)),
{
    let mut out: Vec<DirEntry> = Vec::new();
    let mut i: usize = 0;
    while i < children.len()
        invariant
            i <= children@.len(),
            entries_view(out@) == spec_surviving(children_view(children@).take(i as int)),
        decreases children@.len() - i,
    {
        let ghost cv = children_view(children@);
        let ghost out0 = out@;
        proof {
            assert(cv.take(i + 1).drop_last() =~= cv.take(i as int));
            assert(cv.take(i + 1).last() == cv[i as int]);
        }
        match &children[i].meta {
            Some(m) => {
                let e = DirEntry {
                    name: copy_bytes(&children[i].name),
                    is_dir: children[i].is_dir,
                    meta: *m,
                };
                out.push(e);
                proof {
                    assert(entries_view(out@) =~= entries_view(out0).push(
                    SpecEntry { name: cv[i as int].name, is_dir: cv[i as int].is_dir, meta: *m }));
                }
            },
            None => {},
        }
        i += 1;
    }
    proof {
        assert(children_view(children@).take(children@.len() as int) =~= children_view(
        children@));
    }
    out
}

/// ASCII lowercase of one byte.
pub open spec fn spec_lower(b: u8) -> u8 {
    if 65 <= b <= 90 {
        (b + 32) as u8
    } else {
        b
    }
}

/// ASCII lowercase of a byte string.
pub open spec fn spec_lower_seq(s: Seq<u8>) -> Seq<u8> {
    Seq::new(s.len(), |i: int| spec_lower(s[i]))
}

/// Lexicographic order on byte strings (a prefix sorts before its
/// extensions).
pub open spec fn spec_lex_le(a: Seq<u8>, b: Seq<u8>) -> bool
    decreases a.len(),
{
    if a.len() == 0 {
        true
    } else if b.len() == 0 {
        false
    } else if a.first() < b.first() {
        true
    } else if a.first() > b.first() {
        false
    } else {
        spec_lex_le(a.drop_first(), b.drop_first())
    }
}

/// The sort order of the listing: directories before files; within each
/// group, case-insensitive name, ascending.
pub open spec fn spec_le(a: SpecEntry, b: SpecEntry) -> bool {
    if a.is_dir && !b.is_dir {
        true
    } else if !a.is_dir && b.is_dir {
        false
    } else {
        spec_lex_le(spec_lower_seq(a.name), spec_lower_seq(b.name))
    }
}

/// Comparing from position `i` on is all that is left once the first `i`
/// bytes agree.
proof fn lemma_lex_skip(a: Seq<u8>, b: Seq<u8>, i: int)
    requires
        0 <= i <= a.len(),
        i <= b.len(),
        forall|k: int| 0 <= k < i ==> a[k] == b[k],
    ensures
        spec_lex_le(a, b) == spec_lex_le(a.skip(i), b.skip(i)),
    decreases i,
{
    if i > 0 {
        lemma_lex_skip(a.drop_first(), b.drop_first(), i - 1);
        assert(a.drop_first().skip(i - 1) =~= a.skip(i));
        assert(b.drop_first().skip(i - 1) =~= b.skip(i));
    } else {
        assert(a.skip(0) =~= a);
        assert(b.skip(0) =~= b);
    }
}

/// ASCII lowercase of one byte.
fn lower_byte(b: u8) -> (r: u8)
    ensures
        r == spec_lower(b),
{
    if 65 <= b && b <= 90 {
        b + 32
    } else {
        b
    }
}

/// Case-insensitive lexicographic comparison of two names.
fn lex_le(a: &Vec<u8>, b: &Vec<u8>) -> (r: bool)
    ensures
        r == spec_lex_le(spec_lower_seq(a@), spec_lower_seq(b@)),
{
    let ghost la = spec_lower_seq(a@);
    let ghost lb = spec_lower_seq(b@);
    let mut i: usize = 0;
    while i < a.len() && i < b.len()
        invariant
            i <= a@.len(),
            i <= b@.len(),
            la == spec_lower_seq(a@),
            lb == spec_lower_seq(b@),
            forall|k: int| 0 <= k < i ==> la[k] == lb[k],
        decreases a@.len() - i,
    {
        let x = lower_byte(a[i]);
        let y = lower_byte(b[i]);
        if x < y {
            proof {
                lemma_lex_skip(la, lb, i as int);
            }
            return true;
        }
        if x > y {
            proof {
                lemma_lex_skip(la, lb, i as int);
            }
            return false;
        }
        i += 1;
    }
    proof {
        lemma_lex_skip(la, lb, i as int);
    }
    a.len() <= b.len()
}

/// Decide the sort order between two rows.
fn le_entry(a: &DirEntry, b: &DirEntry) -> (r: bool)
    ensures
        r == spec_le(a@, b@),
{
    if a.is_dir && !b.is_dir {
        true
    } else if !a.is_dir && b.is_dir {
        false
    } else {
        lex_le(&a.name, &b.name)
    }
}

/// Stable insertion into a sorted prefix: the new row goes after every
/// row that sorts no later than it.
pub open spec fn spec_insert_sorted(s: Seq<SpecEntry>, e: SpecEntry) -> Seq<SpecEntry>
    decreases s.len(),
{
    if s.len() == 0 {
        seq![e]
    } else if spec_le(s.first(), e) {
        seq![s.first()] + spec_insert_sorted(s.drop_first(), e)
    } else {
        seq![e] + s
    }
}

/// The stable sort of the listing: rows inserted in encounter order, so
/// rows with equal keys keep their relative order.
pub open spec fn spec_sort(s: Seq<SpecEntry>) -> Seq<SpecEntry>
    decreases s.len(),
{
    if s.len() == 0 {
        Seq::empty()
    } else {
        spec_insert_sorted(spec_sort(s.drop_last()), s.last())
    }
}

/// Where the scan stopped is where the insertion lands.
proof fn lemma_insert_at(s: Seq<SpecEntry>, e: SpecEntry, j: int)
    requires
        0 <= j <= s.len(),
        forall|k: int| 0 <= k < j ==> spec_le(s[k], e),
        j < s.len() ==> !spec_le(s[j], e),
    ensures
        spec_insert_sorted(s, e) =~= s.take(j) + seq![e] + s.skip(j),
    decreases j,
{
    if j == 0 {
        if s.len() == 0 {
            assert(spec_insert_sorted(s, e) =~= s.take(0) + seq![e] + s.skip(0));
        } else {
            assert(s.take(0) + seq![e] + s.skip(0) =~= seq![e] + s);
        }
    } else {
        lemma_insert_at(s.drop_first(), e, j - 1);
        assert(s.drop_first().take(j - 1) =~= s.take(j).drop_first());
        assert(s.drop_first().skip(j - 1) =~= s.skip(j));
        assert(seq![s.first()] + (s.take(j).drop_first() + seq![e] + s.skip(j)) =~= s.take(j)
            + seq![e] + s.skip(j));
    }
}

/// Insert one row into an already sorted listing, keeping it sorted and
/// placing the new row after its equals.
fn insert_sorted(v: &mut Vec<DirEntry>, e: DirEntry)
    ensures
        entries_view(final(v)@) == spec_insert_sorted(entries_view(old(v)@), e@),
{
    let mut j: usize = 0;
    while j < v.len() && le_entry(&v[j], &e)
        invariant
            j <= v@.len(),
            v == old(v),
            forall|k: int| 0 <= k < j ==> spec_le(entries_view(v@)[k], e@),
        decreases v@.len() - j,
    {
        j += 1;
    }
    let ghost s = entries_view(v@);
    v.insert(j, e);
    proof {
        lemma_insert_at(s, e@, j as int);
        assert(entries_view(v@) =~= s.take(j as int) + seq![e@] + s.skip(j as int));
    }
}

/// Copy one listing row.
fn copy_entry(e: &DirEntry) -> (r: DirEntry)
    ensures
        r@ == e@,
{
    DirEntry { name: copy_bytes(&e.name), is_dir: e.is_dir, meta: e.meta }
}

/// Sort the listing: directories before files, then case-insensitive
/// name; rows with equal keys keep their encounter order.
pub fn sort_entries(v: &Vec<DirEntry>) -> (r: Vec<DirEntry>)
    ensures
        entries_view(r@) == spec_sort(entries_view(v@)),
{
    let mut out: Vec<DirEntry> = Vec::new();
    let mut i: usize = 0;
    while i < v.len()
        invariant
            i <= v@.len(),
            entries_view(out@) == spec_sort(entries_view(v@).take(i as int)),
        decreases v@.len() - i,
    {
        let ghost ev = entries_view(v@);
        proof {
            assert(ev.take(i + 1).drop_last() =~= ev.take(i as int));
            assert(ev.take(i + 1).last() == ev[i as int]);
        }
        let e = copy_entry(&v[i]);
        insert_sorted(&mut out, e);
        i += 1;
    }
    proof {
        assert(entries_view(v@).take(v@.len() as int) =~= entries_view(v@));
    }
    out
}

/// The listing order is sorted: every row sorts no later than the rows
/// after it.
pub open spec fn spec_sorted(s: Seq<SpecEntry>) -> bool {
    forall|i: int, j: int| 0 <= i < j < s.len() ==> spec_le(s[i], s[j])
}

/// The lexicographic order is total.
proof fn lemma_lex_le_total(a: Seq<u8>, b: Seq<u8>)
    ensures
        spec_lex_le(a, b) || spec_lex_le(b, a),
    decreases a.len(),
{
    if a.len() > 0 && b.len() > 0 && a.first() == b.first() {
        lemma_lex_le_total(a.drop_first(), b.drop_first());
    }
}

/// The lexicographic order is transitive.
proof fn lemma_lex_le_trans(a: Seq<u8>, b: Seq<u8>, c: Seq<u8>)
    requires
        spec_lex_le(a, b),
        spec_lex_le(b, c),
    ensures
        spec_lex_le(a, c),
    decreases a.len(),
{
    if a.len() > 0 && b.len() > 0 && c.len() > 0 && a.first() == b.first() && b.first()
        == c.first() {
        lemma_lex_le_trans(a.drop_first(), b.drop_first(), c.drop_first());
    }
}

/// The listing order is total: any two rows compare.
pub proof fn lemma_le_total(a: SpecEntry, b: SpecEntry)
    ensures
        spec_le(a, b) || spec_le(b, a),
{
    lemma_lex_le_total(spec_lower_seq(a.name), spec_lower_seq(b.name));
}

/// The listing order is transitive.
pub proof fn lemma_le_trans(a: SpecEntry, b: SpecEntry, c: SpecEntry)
    requires
        spec_le(a, b),
        spec_le(b, c),
    ensures
        spec_le(a, c),
{
    if a.is_dir == b.is_dir && b.is_dir == c.is_dir {
        lemma_lex_le_trans(
            spec_lower_seq(a.name),
            spec_lower_seq(b.name),
            spec_lower_seq(c.name),
        );
    }
}

/// Every row of an insertion result is the inserted row or one of the
/// original rows.
proof fn lemma_insert_sorted_elems(s: Seq<SpecEntry>, e: SpecEntry)
    ensures
        spec_insert_sorted(s, e).len() == s.len() + 1,
        forall|k: int|
            0 <= k < spec_insert_sorted(s, e).len() ==> (#[trigger] spec_insert_sorted(s, e)[k]
                == e || s.contains(spec_insert_sorted(s, e)[k])),
    decreases s.len(),
{
    if s.len() == 0 {
    } else if spec_le(s.first(), e) {
        lemma_insert_sorted_elems(s.drop_first(), e);
        assert forall|k: int| 0 <= k < spec_insert_sorted(s, e).len() implies (
        #[trigger] spec_insert_sorted(s, e)[k] == e || s.contains(spec_insert_sorted(s, e)[k])) by {
            if k > 0 {
                let x = spec_insert_sorted(s, e)[k];
                assert(x == spec_insert_sorted(s.drop_first(), e)[k - 1]);
                if x != e {
                    let m = choose|m: int|
                        0 <= m < s.drop_first().len() && s.drop_first()[m] == x;
                    assert(s[m + 1] == x);
                }
            }
        }
    }
}

/// Inserting into a sorted listing keeps it sorted.
proof fn lemma_insert_sorted_keeps(s: Seq<SpecEntry>, e: SpecEntry)
    requires
        spec_sorted(s),
    ensures
        spec_sorted(spec_insert_sorted(s, e)),
    decreases s.len(),
{
    if s.len() == 0 {
    } else if spec_le(s.first(), e) {
        assert(spec_sorted(s.drop_first()));
        lemma_insert_sorted_keeps(s.drop_first(), e);
        lemma_insert_sorted_elems(s.drop_first(), e);
        let r = spec_insert_sorted(s, e);
        let rr = spec_insert_sorted(s.drop_first(), e);
        assert forall|i: int, j: int| 0 <= i < j < r.len() implies spec_le(r[i], r[j]) by {
            if i == 0 {
                assert(r[j] == rr[j - 1]);
                if rr[j - 1] == e {
                } else {
                    let m = choose|m: int|
                        0 <= m < s.drop_first().len() && s.drop_first()[m] == rr[j - 1];
                    assert(s[m + 1] == rr[j - 1]);
                    assert(spec_le(s[0], s[m + 1]));
                }
            } else {
                assert(r[i] == rr[i - 1] && r[j] == rr[j - 1]);
            }
        }
    } else {
        lemma_le_total(s.first(), e);
        let r = spec_insert_sorted(s, e);
        assert forall|i: int, j: int| 0 <= i < j < r.len() implies spec_le(r[i], r[j]) by {
            if i == 0 {
                assert(r[j] == s[j - 1]);
                if j == 1 {
                    assert(spec_le(e, s[0]));
                } else {
                    assert(spec_le(s[0], s[j - 1]));
                    lemma_le_trans(e, s[0], s[j - 1]);
                }
            } else {
                assert(r[i] == s[i - 1] && r[j] == s[j - 1]);
            }
        }
    }
}

/// The sorted listing is sorted: directories before files, names in
/// case-insensitive ascending order within each group.
pub proof fn lemma_sort_sorted(s: Seq<SpecEntry>)
    ensures
        spec_sorted(spec_sort(s)),
    decreases s.len(),
{
    if s.len() > 0 {
        lemma_sort_sorted(s.drop_last());
        lemma_insert_sorted_keeps(spec_sort(s.drop_last()), s.last());
    }
}

/// Insertion adds exactly the new row to the listing's multiset.
proof fn lemma_insert_sorted_multiset(s: Seq<SpecEntry>, e: SpecEntry)
    ensures
        spec_insert_sorted(s, e).to_multiset() == s.to_multiset().insert(e),
    decreases s.len(),
{
    broadcast use vstd::seq_lib::group_to_multiset_ensures;

    if s.len() == 0 {
        assert(seq![e] =~= Seq::<SpecEntry>::empty().push(e));
        assert(Seq::<SpecEntry>::empty().to_multiset() =~= Multiset::<SpecEntry>::empty());
    } else if spec_le(s.first(), e) {
        lemma_insert_sorted_multiset(s.drop_first(), e);
        let rr = spec_insert_sorted(s.drop_first(), e);
        vstd::seq_lib::lemma_multiset_commutative(seq![s.first()], rr);
        vstd::seq_lib::lemma_multiset_commutative(seq![s.first()], s.drop_first());
        assert(seq![s.first()] + s.drop_first() =~= s);
        assert(seq![s.first()].to_multiset().add(s.drop_first().to_multiset().insert(e))
            =~= seq![s.first()].to_multiset().add(s.drop_first().to_multiset()).insert(e));
    } else {
        vstd::seq_lib::lemma_multiset_commutative(seq![e], s);
        assert(seq![e] =~= Seq::<SpecEntry>::empty().push(e));
        assert(Seq::<SpecEntry>::empty().to_multiset() =~= Multiset::<SpecEntry>::empty());
        assert(Multiset::<SpecEntry>::empty().insert(e).add(s.to_multiset()) =~= s.to_multiset()
            .insert(e));
    }
}

/// Sorting permutes the listing: the same rows, with the same
/// multiplicities, come out.
pub proof fn lemma_sort_permutes(s: Seq<SpecEntry>)
    ensures
        spec_sort(s).to_multiset() == s.to_multiset(),
    decreases s.len(),
{
    broadcast use vstd::seq_lib::group_to_multiset_ensures;

    if s.len() > 0 {
        lemma_sort_permutes(s.drop_last());
        lemma_insert_sorted_multiset(spec_sort(s.drop_last()), s.last());
        assert(s.drop_last().push(s.last()) =~= s);
    }
}

/// Number of directories among the rows.
pub open spec fn spec_num_dirs(s: Seq<SpecEntry>) -> int
    decreases s.len(),
{
    if s.len() == 0 {
        0
    } else {
        spec_num_dirs(s.drop_last()) + if s.last().is_dir {
            1int
        } else {
            0int
        }
    }
}

/// Cumulative byte size of the rows: files contribute their size,
/// directories contribute zero.
pub open spec fn spec_total_size(s: Seq<SpecEntry>) -> int
    decreases s.len(),
{
    if s.len() == 0 {
        0
    } else {
        spec_total_size(s.drop_last()) + if s.last().is_dir {
            0int
        } else {
            s.last().meta.size as int
        }
    }
}

/// The aggregate statistics of one listing, as the renderer's footer
/// consumes them.
#[derive(Debug, Clone, Copy, PartialEq, Eq, Structural)]
pub struct FooterArgs {
    pub num_entries: usize,
    pub num_dirs: usize,
    pub total_size: u64,
}

/// Aggregate the statistics of a listing: row count, directory count,
/// and the cumulative size of the files alone (64-bit wrapping sum).
pub fn aggregate(entries: &Vec<DirEntry>) -> (r: FooterArgs)
    ensures
        r.num_entries == entries@.len(),
        r.num_dirs == spec_num_dirs(entries_view(entries@)),
        r.total_size as int == spec_total_size(entries_view(entries@)) % 0x10000000000000000,
{
    let mut num_dirs: usize = 0;
    let mut total_size: u64 = 0;
    let mut i: usize = 0;
    while i < entries.len()
        invariant
            i <= entries@.len(),
            num_dirs <= i,
            num_dirs == spec_num_dirs(entries_view(entries@).take(i as int)),
            total_size as int == spec_total_size(entries_view(entries@).take(i as int))
                % 0x10000000000000000,
        decreases entries@.len() - i,
    {
        let ghost ev = entries_view(entries@);
        proof {
            assert(ev.take(i + 1).drop_last() =~= ev.take(i as int));
            assert(ev.take(i + 1).last() == ev[i as int]);
        }
        if entries[i].is_dir {
            num_dirs += 1;
        } else {
            let ghost before = spec_total_size(ev.take(i as int));
            let ghost added = entries@[i as int].meta.size as int;
            total_size = total_size.wrapping_add(entries[i].meta.size);
            proof {
                vstd::arithmetic::div_mod::lemma_add_mod_noop(
                    before,
                    added,
                    0x10000000000000000,
                );
                vstd::arithmetic::div_mod::lemma_small_mod(
                    added as nat,
                    0x10000000000000000nat,
                );
            }
        }
        i += 1;
    }
    proof {
        assert(entries_view(entries@).take(entries@.len() as int) =~= entries_view(entries@));
    }
    FooterArgs { num_entries: entries.len(), num_dirs, total_size }
}

/// Produce the listing of one directory from its enumerated children:
/// drop the children whose stat failed, sort what is left (directories
/// first, then case-insensitive name, equals in encounter order), and
/// aggregate the statistics over the surviving, sorted rows.
pub fn list(children: &Vec<Child>) -> (r: (Vec<DirEntry>, FooterArgs))
    ensures
        entries_view(r.0@) == spec_sort(spec_surviving(children_view(children@))),
        r.1.num_entries == r.0@.len(),
        r.1.num_dirs == spec_num_dirs(entries_view(r.0@)),
        r.1.total_size as int == spec_total_size(entries_view(r.0@)) % 0x10000000000000000,
{
    let kept = visit_dir(children);
    let sorted = sort_entries(&kept);
    let stats = aggregate(&sorted);
    (sorted, stats)
}

} // verus!
