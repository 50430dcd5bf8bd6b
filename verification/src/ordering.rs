//! Ordering the entries of a channel by date, keeping entries of equal date in
//! the order in which they came.

use vstd::prelude::*;
use crate::record::CatalogueEntry;
use crate::date::EntryDate;
use crate::seqs::{lemma_filter_push, lemma_filter_none};

verus! {

/// Whether the dates of `s` never go down.
pub open spec fn is_ordered(s: Seq<&CatalogueEntry>) -> bool {
    forall|i: int, j: int| 0 <= i < j < s.len() ==> s[i].date.le(s[j].date)
}

/// Where an entry of date `d` goes into `s`: behind the last entry that is
/// not later than it.
pub open spec fn insertion_point(s: Seq<&CatalogueEntry>, d: EntryDate) -> int
    decreases s.len(),
{
    if s.len() == 0 {
        0
    } else if s.last().date.le(d) {
        s.len() as int
    } else {
        insertion_point(s.drop_last(), d)
    }
}

/// The entries of `s` ordered by date. Each entry in turn goes behind the
/// entries placed so far that are not later than it, so entries of equal date
/// keep their order.
pub open spec fn sorted_by_date(s: Seq<&CatalogueEntry>) -> Seq<&CatalogueEntry>
    decreases s.len(),
{
    if s.len() == 0 {
        s
    } else {
        let rest = sorted_by_date(s.drop_last());
        rest.insert(insertion_point(rest, s.last().date), s.last())
    }
}

/// The test for the entries of date `d`.
pub open spec fn has_date<'a>(d: EntryDate) -> spec_fn(&'a CatalogueEntry) -> bool {
    |e: &CatalogueEntry| e.date == d
}

/// The insertion point lies within the sequence; what stands right before it
/// is not later than `d`, and all that stands from it on is later.
pub proof fn lemma_insertion_point(s: Seq<&CatalogueEntry>, d: EntryDate)
    ensures
        0 <= insertion_point(s, d) <= s.len(),
        insertion_point(s, d) > 0 ==> s[insertion_point(s, d) - 1].date.le(d),
        forall|k: int| insertion_point(s, d) <= k < s.len() ==> d.lt(s[k].date),
    decreases s.len(),
{
    if s.len() > 0 && !s.last().date.le(d) {
        lemma_insertion_point(s.drop_last(), d);
        let p = insertion_point(s.drop_last(), d);
        assert forall|k: int| p <= k < s.len() implies d.lt(s[k].date) by {
            if k < s.len() - 1 {
                assert(s[k] == s.drop_last()[k]);
            }
        }
        if p > 0 {
            assert(s[p - 1] == s.drop_last()[p - 1]);
        }
    }
}

/// A position with nothing later than `d` right before it and only later
/// entries from it on is the insertion point.
pub proof fn lemma_insertion_point_unique(s: Seq<&CatalogueEntry>, d: EntryDate, p: int)
    requires
        0 <= p <= s.len(),
        p > 0 ==> s[p - 1].date.le(d),
        forall|k: int| p <= k < s.len() ==> d.lt(s[k].date),
    ensures
        insertion_point(s, d) == p,
    decreases s.len(),
{
    if s.len() > 0 {
        if s.last().date.le(d) {
            if p < s.len() {
                assert(d.lt(s[s.len() - 1].date));
            }
        } else {
            let t = s.drop_last();
            assert(p < s.len());
            if p > 0 {
                assert(t[p - 1] == s[p - 1]);
            }
            assert forall|k: int| p <= k < t.len() implies d.lt(t[k].date) by {
                assert(t[k] == s[k]);
            }
            lemma_insertion_point_unique(t, d, p);
        }
    }
}

/// Sorting keeps the entries, each as often as it occurred, and puts their
/// dates in ascending order.
pub proof fn lemma_sorted_by_date(s: Seq<&CatalogueEntry>)
    ensures
        sorted_by_date(s).len() == s.len(),
        sorted_by_date(s).to_multiset() == s.to_multiset(),
        is_ordered(sorted_by_date(s)),
    decreases s.len(),
{
    broadcast use vstd::seq_lib::to_multiset_build, vstd::seq_lib::to_multiset_insert;

    if s.len() > 0 {
        let x = s.last();
        let rest = sorted_by_date(s.drop_last());
        let p = insertion_point(rest, x.date);
        let out = rest.insert(p, x);
        lemma_sorted_by_date(s.drop_last());
        lemma_insertion_point(rest, x.date);
        assert(s =~= s.drop_last().push(x));
        assert(s.to_multiset() == s.drop_last().to_multiset().insert(x));
        assert(out.to_multiset() == rest.to_multiset().insert(x));
        assert forall|i: int, j: int| 0 <= i < j < out.len() implies out[i].date.le(
            out[j].date,
        ) by {
            if j < p {
                assert(out[i] == rest[i] && out[j] == rest[j]);
            } else if j == p {
                assert(out[i] == rest[i]);
                assert(rest[i].date.le(rest[p - 1].date)) by {
                    if i < p - 1 {
                        assert(rest[i].date.le(rest[p - 1].date));
                    }
                }
            } else if i < p {
                assert(out[i] == rest[i] && out[j] == rest[j - 1]);
            } else if i == p {
                assert(out[j] == rest[j - 1]);
            } else {
                assert(out[i] == rest[i - 1] && out[j] == rest[j - 1]);
            }
        }
    }
}

/// Sorting is stable: the entries of any one date stand in the sorted
/// sequence in the order in which they stood before.
pub proof fn lemma_sort_is_stable(s: Seq<&CatalogueEntry>, d: EntryDate)
    ensures
        sorted_by_date(s).filter(has_date(d)) == s.filter(has_date(d)),
    decreases s.len(),
{
    if s.len() > 0 {
        let x = s.last();
        let rest = sorted_by_date(s.drop_last());
        let p = insertion_point(rest, x.date);
        let out = rest.insert(p, x);
        let pred = has_date(d);
        lemma_sort_is_stable(s.drop_last(), d);
        lemma_sorted_by_date(s.drop_last());
        lemma_insertion_point(rest, x.date);
        assert(s =~= s.drop_last().push(x));
        lemma_filter_push(s.drop_last(), pred, x);
        let front = rest.take(p);
        let back = rest.skip(p);
        assert(rest =~= front + back);
        assert(out =~= front.push(x) + back);
        Seq::filter_distributes_over_add(front, back, pred);
        Seq::filter_distributes_over_add(front.push(x), back, pred);
        lemma_filter_push(front, pred, x);
        if pred(x) {
            assert forall|k: int| 0 <= k < back.len() implies !pred(#[trigger] back[k]) by {
                assert(back[k] == rest[p + k]);
            }
            lemma_filter_none(back, pred);
            assert(out.filter(pred) =~= s.filter(pred));
        } else {
            assert(out.filter(pred) =~= s.filter(pred));
        }
    } else {
        assert(sorted_by_date(s) =~= s);
    }
}

/// Orders the entries by date; entries of equal date keep their order.
pub fn sort_by_date<'a>(vids: &Vec<&'a CatalogueEntry>) -> (r: Vec<&'a CatalogueEntry>)
    ensures
        r@ == sorted_by_date(vids@),
{
    let mut out: Vec<&'a CatalogueEntry> = Vec::new();
    let mut i: usize = 0;
    assert(vids@.take(0) =~= Seq::<&CatalogueEntry>::empty());
    while i < vids.len()
        invariant
            i <= vids.len(),
            out@ == sorted_by_date(vids@.take(i as int)),
        decreases vids.len() - i,
    {
        let x: &'a CatalogueEntry = vids[i];
        proof {
            lemma_sorted_by_date(vids@.take(i as int));
        }
        let mut p: usize = out.len();
        while p > 0 && x.date.before(&out[p - 1].date)
            invariant
                p <= out.len(),
                forall|k: int| p <= k < out.len() ==> x.date.lt(out@[k].date),
            decreases p,
        {
            p -= 1;
        }
        proof {
            lemma_insertion_point_unique(out@, x.date, p as int);
            assert(vids@.take(i + 1).drop_last() =~= vids@.take(i as int));
            assert(vids@.take(i + 1).last() == x);
        }
        out.insert(p, x);
        i += 1;
    }
    assert(vids@.take(i as int) =~= vids@);
    out
}

} // verus!
