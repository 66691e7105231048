//! Sorting the catalog by creation time: the only transformation a fetched
//! record list undergoes. The sort is stable — records sharing a timestamp
//! keep their order — and leaves the list non-decreasing in `created`.

use vstd::prelude::*;
use crate::record::{Emoji, EmojiView};

verus! {

/// The record values carried by a list of records, in order.
pub open spec fn views_of(s: Seq<Emoji>) -> Seq<EmojiView> {
    s.map_values(|e: Emoji| e@)
}

/// The records created at instant `t`, as a predicate for filtering.
pub open spec fn has_created(t: u128) -> spec_fn(EmojiView) -> bool {
    |e: EmojiView| e.created == t
}

/// Non-decreasing in the sort key.
pub open spec fn sorted_by_created(s: Seq<EmojiView>) -> bool {
    forall|i: int, j: int| 0 <= i < j < s.len() ==> s[i].created <= s[j].created
}

/// `r` holds exactly the records of `s`, and for every timestamp the
/// records carrying it stand in `r` in the order they had in `s`: `r` is a
/// stable rearrangement of `s`.
pub open spec fn stable_reorder_of(r: Seq<EmojiView>, s: Seq<EmojiView>) -> bool {
    forall|t: u128| #[trigger] r.filter(has_created(t)) == s.filter(has_created(t))
}

proof fn lemma_filter_none(s: Seq<EmojiView>, pred: spec_fn(EmojiView) -> bool)
    requires
        forall|k: int| 0 <= k < s.len() ==> !pred(s[k]),
    ensures
        s.filter(pred) == Seq::<EmojiView>::empty(),
    decreases s.len(),
{
    reveal(Seq::filter);
    if s.len() > 0 {
        assert(forall|k: int| 0 <= k < s.drop_last().len() ==> s.drop_last()[k] == s[k]);
        lemma_filter_none(s.drop_last(), pred);
    }
}

proof fn lemma_filter_one(e: EmojiView, pred: spec_fn(EmojiView) -> bool)
    ensures
        pred(e) ==> seq![e].filter(pred) == seq![e],
        !pred(e) ==> seq![e].filter(pred) == Seq::<EmojiView>::empty(),
{
    reveal(Seq::filter);
    assert(seq![e].drop_last() =~= Seq::<EmojiView>::empty());
    assert(seq![e].last() == e);
    assert(Seq::<EmojiView>::empty().filter(pred) == Seq::<EmojiView>::empty());
    if pred(e) {
        assert(seq![e].filter(pred) =~= seq![e]);
    } else {
        assert(seq![e].filter(pred) =~= Seq::<EmojiView>::empty());
    }
}

/// Moving `s[i]` left to position `j`, across elements whose key is
/// strictly greater, leaves every per-timestamp filtering unchanged.
proof fn lemma_move_left_keeps_filters(s: Seq<EmojiView>, j: int, i: int)
    requires
        0 <= j <= i < s.len(),
        forall|k: int| j <= k < i ==> s[k].created > s[i].created,
    ensures
        forall|t: u128| #[trigger] s.remove(i).insert(j, s[i]).filter(has_created(t))
            == s.filter(has_created(t)),
{
    broadcast use vstd::seq_lib::group_seq_lib_default;

    let e = s[i];
    let a = s.subrange(0, j);
    let b = s.subrange(j, i);
    let c = s.subrange(i + 1, s.len() as int);
    assert(s =~= a + b + seq![e] + c);
    assert(s.remove(i).insert(j, e) =~= a + seq![e] + b + c);
    assert forall|t: u128| #[trigger] s.remove(i).insert(j, e).filter(has_created(t)) == s.filter(
        has_created(t),
    ) by {
        let pred = has_created(t);
        lemma_filter_one(e, pred);
        if e.created == t {
            assert(forall|k: int| 0 <= k < b.len() ==> !pred(b[k]));
            lemma_filter_none(b, pred);
        }
        assert((a + b + seq![e] + c).filter(pred) == a.filter(pred) + b.filter(pred) + seq![
            e,
        ].filter(pred) + c.filter(pred));
        assert((a + seq![e] + b + c).filter(pred) == a.filter(pred) + seq![e].filter(pred)
            + b.filter(pred) + c.filter(pred));
        if e.created == t {
            assert(a.filter(pred) + b.filter(pred) + seq![e].filter(pred) + c.filter(pred)
                =~= a.filter(pred) + seq![e].filter(pred) + b.filter(pred) + c.filter(pred));
        } else {
            assert(a.filter(pred) + b.filter(pred) + seq![e].filter(pred) + c.filter(pred)
                =~= a.filter(pred) + seq![e].filter(pred) + b.filter(pred) + c.filter(pred));
        }
    }
}

/// Stable rearrangement is preserved across successive reorderings.
proof fn lemma_stable_trans(a: Seq<EmojiView>, b: Seq<EmojiView>, c: Seq<EmojiView>)
    requires
        stable_reorder_of(a, b),
        stable_reorder_of(b, c),
    ensures
        stable_reorder_of(a, c),
{
}

/// Sorts the list in place by `created`, ascending. The result is
/// non-decreasing in the key, and for every timestamp the records carrying
/// it keep the order they arrived in: the sort is stable.
pub fn sort_by_created(v: &mut Vec<Emoji>)
    ensures
        sorted_by_created(views_of(final(v)@)),
        stable_reorder_of(views_of(final(v)@), views_of(old(v)@)),
        final(v)@.len() == old(v)@.len(),
{
    let ghost orig: Seq<EmojiView> = views_of(v@);
    let mut i: usize = 1;
    while i < v.len()
        invariant
            1 <= i,
            v@.len() == orig.len(),
            i <= v@.len() || v@.len() <= 1,
            sorted_by_created(views_of(v@).subrange(0, if i <= v@.len() { i as int } else { v@.len() as int })),
            stable_reorder_of(views_of(v@), orig),
        decreases v@.len() - i,
    {
        let ghost before: Seq<EmojiView> = views_of(v@);
        let key: u128 = v[i].created;
        let mut j: usize = i;
        while j > 0 && v[j - 1].created > key
            invariant
                0 <= j <= i < v@.len(),
                views_of(v@) == before,
                key == before[i as int].created,
                forall|k: int| j <= k < i ==> before[k].created > key,
            decreases j,
        {
            j = j - 1;
        }
        let e = v.remove(i);
        v.insert(j, e);
        proof {
            assert(views_of(v@) =~= before.remove(i as int).insert(j as int, before[i as int]));
            lemma_move_left_keeps_filters(before, j as int, i as int);
            lemma_stable_trans(views_of(v@), before, orig);
            let cur = views_of(v@);
            assert forall|p: int, q: int| 0 <= p < q < i + 1 implies cur[p].created
                <= cur[q].created by {
                let bs = before.subrange(0, i as int);
                assert(sorted_by_created(bs));
                if q < j {
                    assert(cur[p] == before[p] && cur[q] == before[q]);
                } else if p < j && q == j {
                    assert(cur[p] == before[p] && cur[q] == before[i as int]);
                    if j > 0 {
                        assert(before[j - 1].created <= key);
                        assert(bs[p as int].created <= bs[(j - 1) as int].created || p == j - 1);
                    }
                } else if p < j && q > j {
                    assert(cur[p] == before[p] && cur[q] == before[q - 1]);
                } else if p == j && q > j {
                    assert(cur[p] == before[i as int] && cur[q] == before[q - 1]);
                    assert(before[q - 1].created > key);
                } else {
                    assert(cur[p] == before[p - 1] && cur[q] == before[q - 1]);
                }
            }
            assert(sorted_by_created(views_of(v@).subrange(0, i + 1)));
        }
        i = i + 1;
    }
    proof {
        if v@.len() <= 1 {
            assert(sorted_by_created(views_of(v@)));
        } else {
            assert(views_of(v@).subrange(0, v@.len() as int) =~= views_of(v@));
        }
    }
}

} // verus!
