//! Ordering package records by name.
//!
//! The order looks at the name alone; records with the same name keep the
//! order in which they were given.

use crate::listing::records;
use crate::package::{PackageInfo, PackageView};
use crate::text::{
    lemma_lex_le_reflexive, lemma_lex_le_total, lemma_lex_le_transitive, lex_le, text_le,
};
use vstd::prelude::*;

verus! {

/// Names never decrease along `s`.
pub open spec fn sorted_by_name(s: Seq<PackageView>) -> bool {
    forall|i: int, j: int|
        0 <= i <= j < s.len() ==> lex_le((#[trigger] s[i]).name, (#[trigger] s[j]).name)
}

/// `s` with `p` put behind the last record whose name is at or before the
/// name of `p`, or in front where there is none. `s` is meant to be sorted.
pub open spec fn insert_by_name(s: Seq<PackageView>, p: PackageView) -> Seq<PackageView>
    decreases s.len(),
{
    if s.len() == 0 || lex_le(s.last().name, p.name) {
        s.push(p)
    } else {
        insert_by_name(s.drop_last(), p).push(s.last())
    }
}

/// The records of `s` in order of name; records of one name stay in the
/// order they have in `s`.
pub open spec fn sort_by_name(s: Seq<PackageView>) -> Seq<PackageView>
    decreases s.len(),
{
    if s.len() == 0 {
        s
    } else {
        insert_by_name(sort_by_name(s.drop_last()), s.last())
    }
}

/// Inserting lengthens the sequence by one.
proof fn lemma_insert_len(s: Seq<PackageView>, p: PackageView)
    ensures
        insert_by_name(s, p).len() == s.len() + 1,
    decreases s.len(),
{
    if !(s.len() == 0 || lex_le(s.last().name, p.name)) {
        lemma_insert_len(s.drop_last(), p);
    }
}

/// Inserting stays under every bound that held of the sequence and of the
/// new record.
proof fn lemma_insert_bounded(s: Seq<PackageView>, p: PackageView, bound: Seq<char>)
    requires
        forall|i: int| 0 <= i < s.len() ==> lex_le((#[trigger] s[i]).name, bound),
        lex_le(p.name, bound),
    ensures
        forall|k: int|
            0 <= k < insert_by_name(s, p).len() ==> lex_le(
                (#[trigger] insert_by_name(s, p)[k]).name,
                bound,
            ),
    decreases s.len(),
{
    lemma_insert_len(s, p);
    if !(s.len() == 0 || lex_le(s.last().name, p.name)) {
        let front = s.drop_last();
        assert forall|i: int| 0 <= i < front.len() implies lex_le(
            (#[trigger] front[i]).name,
            bound,
        ) by {
            assert(front[i] == s[i]);
        }
        lemma_insert_len(front, p);
        lemma_insert_bounded(front, p, bound);
    }
}

/// Inserting into a sorted sequence gives a sorted sequence.
pub proof fn lemma_insert_keeps_sorted(s: Seq<PackageView>, p: PackageView)
    requires
        sorted_by_name(s),
    ensures
        sorted_by_name(insert_by_name(s, p)),
    decreases s.len(),
{
    let r = insert_by_name(s, p);
    lemma_insert_len(s, p);
    if s.len() == 0 || lex_le(s.last().name, p.name) {
        assert forall|i: int, j: int| 0 <= i <= j < r.len() implies lex_le(
            (#[trigger] r[i]).name,
            (#[trigger] r[j]).name,
        ) by {
            if j == s.len() {
                if i < s.len() {
                    assert(lex_le(s[i].name, s.last().name));
                    lemma_lex_le_transitive(s[i].name, s.last().name, p.name);
                } else {
                    lemma_lex_le_reflexive(p.name);
                }
            } else {
                assert(lex_le(s[i].name, s[j].name));
            }
        }
    } else {
        let front = s.drop_last();
        let last = s.last();
        assert(sorted_by_name(front)) by {
            assert forall|i: int, j: int| 0 <= i <= j < front.len() implies lex_le(
                (#[trigger] front[i]).name,
                (#[trigger] front[j]).name,
            ) by {
                assert(lex_le(s[i].name, s[j].name));
            }
        }
        lemma_insert_keeps_sorted(front, p);
        assert forall|i: int| 0 <= i < front.len() implies lex_le(
            (#[trigger] front[i]).name,
            last.name,
        ) by {
            assert(lex_le(s[i].name, s[s.len() - 1].name));
        }
        lemma_lex_le_total(last.name, p.name);
        lemma_insert_bounded(front, p, last.name);
        lemma_insert_len(front, p);
        let mid = insert_by_name(front, p);
        lemma_lex_le_reflexive(last.name);
        assert forall|i: int, j: int| 0 <= i <= j < r.len() implies lex_le(
            (#[trigger] r[i]).name,
            (#[trigger] r[j]).name,
        ) by {
            if j < mid.len() {
                assert(lex_le(mid[i].name, mid[j].name));
            } else if i < mid.len() {
                assert(lex_le(mid[i].name, last.name));
            }
        }
    }
}

/// Inserting adds exactly the new record.
pub proof fn lemma_insert_adds_one(s: Seq<PackageView>, p: PackageView)
    ensures
        insert_by_name(s, p).to_multiset() == s.to_multiset().insert(p),
    decreases s.len(),
{
    broadcast use vstd::seq_lib::to_multiset_build;

    if !(s.len() == 0 || lex_le(s.last().name, p.name)) {
        let front = s.drop_last();
        lemma_insert_adds_one(front, p);
        assert(front.push(s.last()) =~= s);
        assert(insert_by_name(s, p).to_multiset() =~= front.to_multiset().insert(p).insert(
            s.last(),
        ));
        assert(s.to_multiset() =~= front.to_multiset().insert(s.last()));
        assert(front.to_multiset().insert(p).insert(s.last()) =~= front.to_multiset().insert(
            s.last(),
        ).insert(p));
    }
}

/// Sorting gives a sequence whose names never decrease.
pub proof fn lemma_sort_is_sorted(s: Seq<PackageView>)
    ensures
        sorted_by_name(sort_by_name(s)),
    decreases s.len(),
{
    if s.len() > 0 {
        lemma_sort_is_sorted(s.drop_last());
        lemma_insert_keeps_sorted(sort_by_name(s.drop_last()), s.last());
    }
}

/// Sorting keeps every record, as often as it occurs, and adds none.
pub proof fn lemma_sort_is_permutation(s: Seq<PackageView>)
    ensures
        sort_by_name(s).to_multiset() == s.to_multiset(),
        sort_by_name(s).len() == s.len(),
    decreases s.len(),
{
    broadcast use vstd::seq_lib::to_multiset_build;

    if s.len() > 0 {
        let front = s.drop_last();
        lemma_sort_is_permutation(front);
        lemma_insert_adds_one(sort_by_name(front), s.last());
        assert(front.push(s.last()) =~= s);
        lemma_insert_len(sort_by_name(front), s.last());
    }
}

/// Puts `p` into the sorted vector `out` at its place by name.
fn insert_record(out: &mut Vec<PackageInfo>, p: PackageInfo)
    ensures
        records(final(out)@) == insert_by_name(records(old(out)@), p@),
{
    let ghost s = records(out@);
    let mut pos: usize = out.len();
    assert(s.take(pos as int) =~= s && s.skip(pos as int) =~= Seq::<PackageView>::empty());
    assert(insert_by_name(s, p@) + Seq::<PackageView>::empty() =~= insert_by_name(s, p@));
    loop
        invariant
            pos <= out.len(),
            s == records(out@),
            insert_by_name(s, p@) == insert_by_name(s.take(pos as int), p@) + s.skip(pos as int),
        ensures
            pos <= out.len(),
            s == records(out@),
            insert_by_name(s, p@) == s.take(pos as int).push(p@) + s.skip(pos as int),
        decreases pos,
    {
        if pos == 0 {
            break ;
        }
        assert(s.take(pos as int).last() == out@[pos - 1]@);
        if text_le(out[pos - 1].name.as_str(), p.name.as_str()) {
            break ;
        }
        proof {
            let head = s.take(pos as int);
            assert(head.drop_last() =~= s.take(pos - 1));
            assert(insert_by_name(head, p@) == insert_by_name(s.take(pos - 1), p@).push(
                s[pos - 1],
            ));
            assert(insert_by_name(s.take(pos - 1), p@).push(s[pos - 1]) + s.skip(pos as int)
                =~= insert_by_name(s.take(pos - 1), p@) + s.skip(pos - 1));
        }
        pos = pos - 1;
    }
    proof {
        assert(s.take(pos as int).push(p@) + s.skip(pos as int) =~= s.insert(pos as int, p@));
        assert(records(out@.insert(pos as int, p)) =~= s.insert(pos as int, p@));
    }
    out.insert(pos, p);
}

/// The records of `v` in order of name, equal names in their given order.
pub fn sort_records(v: &Vec<PackageInfo>) -> (out: Vec<PackageInfo>)
    ensures
        records(out@) == sort_by_name(records(v@)),
        sorted_by_name(records(out@)),
        records(out@).to_multiset() == records(v@).to_multiset(),
{
    let ghost all = records(v@);
    let mut out: Vec<PackageInfo> = Vec::new();
    let mut i: usize = 0;
    assert(all.take(0) =~= Seq::<PackageView>::empty());
    assert(records(out@) =~= Seq::<PackageView>::empty());
    while i < v.len()
        invariant
            i <= v.len(),
            all == records(v@),
            records(out@) == sort_by_name(all.take(i as int)),
        decreases v.len() - i,
    {
        proof {
            assert(all.take(i + 1).drop_last() =~= all.take(i as int));
            assert(all.take(i + 1).last() == v@[i as int]@);
        }
        insert_record(&mut out, v[i].clone());
        i = i + 1;
    }
    proof {
        assert(all.take(v.len() as int) =~= all);
        lemma_sort_is_sorted(all);
        lemma_sort_is_permutation(all);
    }
    out
}

} // verus!
