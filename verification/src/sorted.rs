//! Ascending lists of paras.
use vstd::prelude::*;

use crate::primitives::ParaId;

verus! {

/// The list ascends by para id, and no para is in it twice.
pub open spec fn ascending(list: Seq<ParaId>) -> bool {
    forall|i: int, j: int| 0 <= i < j < list.len() ==> (#[trigger] list[i]).0 < (#[trigger] list[j]).0
}

/// How many paras at the front of the list come before `para`.
pub open spec fn rank(list: Seq<ParaId>, para: ParaId) -> nat
    decreases list.len(),
{
    if list.len() == 0 || list[0].0 >= para.0 {
        0
    } else {
        1 + rank(list.drop_first(), para)
    }
}

/// The list with `para` in it, at its place in the order.
pub open spec fn with(list: Seq<ParaId>, para: ParaId) -> Seq<ParaId> {
    if list.contains(para) {
        list
    } else {
        list.insert(rank(list, para) as int, para)
    }
}

/// Being another para than `para`.
pub open spec fn other_than(para: ParaId) -> spec_fn(ParaId) -> bool {
    |p: ParaId| p != para
}

/// Being none of the paras in the list.
pub open spec fn none_of(paras: Seq<ParaId>) -> spec_fn(ParaId) -> bool {
    |p: ParaId| !paras.contains(p)
}

/// The list with `para` taken out.
pub open spec fn without(list: Seq<ParaId>, para: ParaId) -> Seq<ParaId> {
    list.filter(other_than(para))
}

/// The rank splits an ascending list into the paras before `para` and the others.
pub proof fn lemma_rank(list: Seq<ParaId>, para: ParaId, i: int)
    requires
        0 <= i <= list.len(),
        forall|j: int| 0 <= j < i ==> (#[trigger] list[j]).0 < para.0,
        i < list.len() ==> para.0 <= list[i].0,
    ensures
        rank(list, para) == i,
    decreases list.len(),
{
    if i > 0 {
        assert(list[0].0 < para.0);
        let rest = list.drop_first();
        assert forall|j: int| 0 <= j < i - 1 implies (#[trigger] rest[j]).0 < para.0 by {
            assert(rest[j] == list[j + 1]);
        }
        lemma_rank(rest, para, i - 1);
    }
}

/// Taking out the para at position `i` of an ascending list moves the later ones down by one.
pub proof fn lemma_without_at(list: Seq<ParaId>, i: int)
    requires
        ascending(list),
        0 <= i < list.len(),
    ensures
        without(list, list[i]) == list.remove(i),
{
    let para = list[i];
    let keep = other_than(para);
    let front = list.take(i);
    let back = list.skip(i + 1);
    lemma_filter_all(front, keep);
    lemma_filter_all(back, keep);
    assert(list =~= (front + seq![para]) + back);
    Seq::filter_distributes_over_add(front + seq![para], back, keep);
    Seq::filter_distributes_over_add(front, seq![para], keep);
    assert(seq![para].filter(keep) =~= Seq::<ParaId>::empty()) by {
        reveal_with_fuel(Seq::filter, 2);
        assert(seq![para].drop_last() =~= Seq::<ParaId>::empty());
    }
    assert(list.remove(i) =~= front + back);
    assert(front + Seq::<ParaId>::empty() =~= front);
}

/// A filter that every element passes changes nothing.
pub proof fn lemma_filter_all(list: Seq<ParaId>, keep: spec_fn(ParaId) -> bool)
    requires
        forall|i: int| 0 <= i < list.len() ==> keep(#[trigger] list[i]),
    ensures
        list.filter(keep) == list,
    decreases list.len(),
{
    reveal(Seq::filter);
    if list.len() > 0 {
        let init = list.drop_last();
        assert forall|i: int| 0 <= i < init.len() implies keep(#[trigger] init[i]) by {
            assert(init[i] == list[i]);
        }
        lemma_filter_all(init, keep);
        assert(keep(list[list.len() - 1]));
        assert(init.push(list.last()) =~= list);
    }
}

/// A list that is one longer holds the para that was put behind it and what it held.
pub proof fn lemma_push_contains(list: Seq<ParaId>, para: ParaId, p: ParaId)
    ensures
        list.push(para).contains(p) <==> list.contains(p) || p == para,
{
    if list.contains(p) {
        let i = choose|i: int| 0 <= i < list.len() && list[i] == p;
        assert(list.push(para)[i] == p);
    }
    if p == para {
        assert(list.push(para)[list.len() as int] == p);
    }
    if list.push(para).contains(p) && p != para {
        let i = choose|i: int| 0 <= i < list.push(para).len() && list.push(para)[i] == p;
        assert(list[i] == p);
    }
}

/// Two filters, one after the other, pass what both of them pass.
pub proof fn lemma_filter_twice(
    list: Seq<ParaId>,
    first: spec_fn(ParaId) -> bool,
    second: spec_fn(ParaId) -> bool,
    both: spec_fn(ParaId) -> bool,
)
    requires
        forall|i: int|
            0 <= i < list.len() ==> (both(#[trigger] list[i]) <==> first(list[i]) && second(list[i])),
    ensures
        list.filter(first).filter(second) == list.filter(both),
    decreases list.len(),
{
    reveal(Seq::filter);
    if list.len() > 0 {
        let init = list.drop_last();
        let last = list.last();
        assert forall|i: int| 0 <= i < init.len() implies (both(#[trigger] init[i]) <==> first(
            init[i],
        ) && second(init[i])) by {
            assert(init[i] == list[i]);
        }
        lemma_filter_twice(init, first, second, both);
        assert(last == list[list.len() - 1]);
        let kept = init.filter(first);
        if first(last) {
            assert(kept.push(last).drop_last() =~= kept);
        }
    }
}

/// Taking out one more para comes to taking out the longer list.
pub proof fn lemma_none_of_push(list: Seq<ParaId>, paras: Seq<ParaId>, para: ParaId)
    ensures
        without(list.filter(none_of(paras)), para) == list.filter(none_of(paras.push(para))),
{
    assert forall|i: int| 0 <= i < list.len() implies (none_of(paras.push(para))(#[trigger] list[i])
        <==> none_of(paras)(list[i]) && other_than(para)(list[i])) by {
        lemma_push_contains(paras, para, list[i]);
    }
    lemma_filter_twice(list, none_of(paras), other_than(para), none_of(paras.push(para)));
}

/// Taking out a para that is not in the list changes nothing.
pub proof fn lemma_without_absent(list: Seq<ParaId>, para: ParaId)
    requires
        !list.contains(para),
    ensures
        without(list, para) == list,
{
    lemma_filter_all(list, other_than(para));
}

/// A list with a para put in at its place ascends, and holds that para and what it held.
pub proof fn lemma_with(list: Seq<ParaId>, para: ParaId)
    requires
        ascending(list),
    ensures
        ascending(with(list, para)),
        forall|p: ParaId| #[trigger] with(list, para).contains(p) <==> p == para || list.contains(p),
{
    if !list.contains(para) {
        let i = rank(list, para) as int;
        lemma_rank_bounds(list, para);
        let grown = list.insert(i, para);
        list.insert_ensures(i, para);
        assert forall|a: int, b: int| 0 <= a < b < grown.len() implies (#[trigger] grown[a]).0 < (
        #[trigger] grown[b]).0 by {
            let a0 = if a < i { a } else { a - 1 };
            let b0 = if b < i { b } else { b - 1 };
            if a == i {
                assert(grown[b] == list[b0]);
                assert(list.contains(list[b0]));
            } else if b == i {
                assert(grown[a] == list[a0]);
            } else {
                assert(grown[a] == list[a0]);
                assert(grown[b] == list[b0]);
            }
        }
        assert forall|p: ParaId| #[trigger] grown.contains(p) <==> p == para || list.contains(p) by {
            assert(grown[i] == para);
            if list.contains(p) {
                let j = choose|j: int| 0 <= j < list.len() && list[j] == p;
                assert(grown[if j < i { j } else { j + 1 }] == p);
            }
            if grown.contains(p) && p != para {
                let j = choose|j: int| 0 <= j < grown.len() && grown[j] == p;
                assert(list[if j < i { j } else { j - 1 }] == p);
            }
        }
    }
}

/// What the rank means in an ascending list.
pub proof fn lemma_rank_bounds(list: Seq<ParaId>, para: ParaId)
    requires
        ascending(list),
    ensures
        rank(list, para) <= list.len(),
        forall|j: int| 0 <= j < rank(list, para) ==> (#[trigger] list[j]).0 < para.0,
        forall|j: int| rank(list, para) <= j < list.len() ==> para.0 <= (#[trigger] list[j]).0,
    decreases list.len(),
{
    if list.len() > 0 && list[0].0 < para.0 {
        let rest = list.drop_first();
        assert forall|a: int, b: int| 0 <= a < b < rest.len() implies (#[trigger] rest[a]).0 < (
        #[trigger] rest[b]).0 by {
            assert(rest[a] == list[a + 1] && rest[b] == list[b + 1]);
        }
        lemma_rank_bounds(rest, para);
        assert forall|j: int| 0 <= j < rank(list, para) implies (#[trigger] list[j]).0 < para.0 by {
            if j > 0 {
                assert(rest[j - 1] == list[j]);
            }
        }
        assert forall|j: int| rank(list, para) <= j < list.len() implies para.0 <= (
        #[trigger] list[j]).0 by {
            assert(rest[j - 1] == list[j]);
        }
    }
}

/// What a filtered ascending list is: ascending, and exactly the elements that passed.
pub proof fn lemma_filter_ascending(list: Seq<ParaId>, keep: spec_fn(ParaId) -> bool)
    requires
        ascending(list),
    ensures
        ascending(list.filter(keep)),
        list.filter(keep).len() <= list.len(),
        forall|p: ParaId| #[trigger]
            list.filter(keep).contains(p) <==> list.contains(p) && keep(p),
    decreases list.len(),
{
    reveal(Seq::filter);
    if list.len() > 0 {
        let init = list.drop_last();
        let last = list.last();
        assert forall|i: int, j: int| 0 <= i < j < init.len() implies (#[trigger] init[i]).0 < (
        #[trigger] init[j]).0 by {
            assert(init[i] == list[i] && init[j] == list[j]);
        }
        lemma_filter_ascending(init, keep);
        let kept = init.filter(keep);
        let whole = list.filter(keep);
        assert(whole == if keep(last) { kept.push(last) } else { kept });
        assert forall|i: int, j: int| 0 <= i < j < whole.len() implies (#[trigger] whole[i]).0 < (
        #[trigger] whole[j]).0 by {
            if j == kept.len() {
                assert(kept.contains(kept[i]));
                assert(init.contains(kept[i]));
                let k = choose|k: int| 0 <= k < init.len() && init[k] == kept[i];
                assert(list[k] == kept[i]);
                assert(list[list.len() - 1] == last);
            } else {
                assert(whole[i] == kept[i] && whole[j] == kept[j]);
            }
        }
        assert forall|p: ParaId| #[trigger] whole.contains(p) <==> list.contains(p) && keep(p) by {
            assert(list.contains(p) <==> init.contains(p) || p == last) by {
                if init.contains(p) {
                    let k = choose|k: int| 0 <= k < init.len() && init[k] == p;
                    assert(list[k] == p);
                }
                if p == last {
                    assert(list[list.len() - 1] == p);
                }
                if list.contains(p) && p != last {
                    let k = choose|k: int| 0 <= k < list.len() && list[k] == p;
                    assert(init[k] == p);
                }
            }
            assert(kept.contains(p) <==> init.contains(p) && keep(p));
            if keep(last) {
                if kept.contains(p) {
                    let k = choose|k: int| 0 <= k < kept.len() && kept[k] == p;
                    assert(whole[k] == p);
                }
                if p == last {
                    assert(whole[kept.len() as int] == p);
                }
                if whole.contains(p) && p != last {
                    let k = choose|k: int| 0 <= k < whole.len() && whole[k] == p;
                    assert(kept[k] == p);
                }
            }
        }
    }
}

/// An ascending list is determined by the paras in it.
pub proof fn lemma_ascending_unique(a: Seq<ParaId>, b: Seq<ParaId>)
    requires
        ascending(a),
        ascending(b),
        forall|p: ParaId| #[trigger] a.contains(p) <==> b.contains(p),
    ensures
        a == b,
    decreases a.len(),
{
    if a.len() == 0 {
        if b.len() > 0 {
            assert(b.contains(b[0]));
            assert(a.contains(b[0]));
        }
        assert(a =~= b);
    } else {
        assert(a.contains(a[0]));
        assert(b.len() > 0);
        let x = a.last();
        let y = b.last();
        assert(a.contains(x) && b.contains(x));
        assert(b.contains(y) && a.contains(y));
        let i = choose|i: int| 0 <= i < b.len() && b[i] == x;
        let j = choose|j: int| 0 <= j < a.len() && a[j] == y;
        assert(x == y);
        let a0 = a.drop_last();
        let b0 = b.drop_last();
        assert(a =~= a0.push(x));
        assert(b =~= b0.push(x));
        assert forall|p: ParaId| #[trigger] a0.contains(p) <==> b0.contains(p) by {
            lemma_push_contains(a0, x, p);
            lemma_push_contains(b0, x, p);
            assert(a.contains(p) <==> b.contains(p));
            if a0.contains(x) {
                let k = choose|k: int| 0 <= k < a0.len() && a0[k] == x;
                assert(a[k] == x && a[a.len() - 1] == x);
            }
            if b0.contains(x) {
                let k = choose|k: int| 0 <= k < b0.len() && b0[k] == x;
                assert(b[k] == x && b[b.len() - 1] == x);
            }
        }
        assert(ascending(a0)) by {
            assert forall|k: int, l: int| 0 <= k < l < a0.len() implies (#[trigger] a0[k]).0 < (
            #[trigger] a0[l]).0 by {
                assert(a[k] == a0[k] && a[l] == a0[l]);
            }
        }
        assert(ascending(b0)) by {
            assert forall|k: int, l: int| 0 <= k < l < b0.len() implies (#[trigger] b0[k]).0 < (
            #[trigger] b0[l]).0 by {
                assert(b[k] == b0[k] && b[l] == b0[l]);
            }
        }
        lemma_ascending_unique(a0, b0);
    }
}

/// It does not matter in which order two paras are put into a list.
pub proof fn lemma_with_commutes(list: Seq<ParaId>, p: ParaId, q: ParaId)
    requires
        ascending(list),
    ensures
        with(with(list, p), q) == with(with(list, q), p),
{
    lemma_with(list, p);
    lemma_with(list, q);
    lemma_with(with(list, p), q);
    lemma_with(with(list, q), p);
    assert forall|r: ParaId| #[trigger]
        with(with(list, p), q).contains(r) <==> with(with(list, q), p).contains(r) by {
        assert(with(list, p).contains(r) <==> r == p || list.contains(r));
        assert(with(list, q).contains(r) <==> r == q || list.contains(r));
        assert(with(with(list, q), p).contains(r) <==> r == p || with(list, q).contains(r));
    }
    lemma_ascending_unique(with(with(list, p), q), with(with(list, q), p));
}

/// Looks `para` up in an ascending list.
///
/// `Ok` gives its position. `Err` gives the position at which it would be.
pub fn binary_search(list: &Vec<ParaId>, para: ParaId) -> (r: Result<usize, usize>)
    requires
        ascending(list@),
    ensures
        match r {
            Ok(i) => i < list@.len() && list@[i as int] == para,
            Err(i) => !list@.contains(para) && i == rank(list@, para) && i <= list@.len(),
        },
        r matches Err(i) ==> {
            &&& forall|j: int| 0 <= j < i ==> (#[trigger] list@[j]).0 < para.0
            &&& forall|j: int| i <= j < list@.len() ==> para.0 < (#[trigger] list@[j]).0
        },
{
    let mut low: usize = 0;
    let mut high: usize = list.len();
    while low < high
        invariant
            low <= high <= list@.len(),
            ascending(list@),
            forall|j: int| 0 <= j < low ==> (#[trigger] list@[j]).0 < para.0,
            forall|j: int| high <= j < list@.len() ==> para.0 < (#[trigger] list@[j]).0,
        decreases high - low,
    {
        let mid: usize = low + (high - low) / 2;
        let found = list[mid];
        if found.0 == para.0 {
            assert(list@[mid as int] == para);
            return Ok(mid);
        }
        if found.0 < para.0 {
            low = mid + 1;
        } else {
            high = mid;
        }
    }
    proof {
        lemma_rank(list@, para, low as int);
    }
    Err(low)
}

/// Puts `para` into an ascending list, unless it is there.
pub fn insert(list: &mut Vec<ParaId>, para: ParaId)
    requires
        ascending(old(list)@),
    ensures
        final(list)@ == with(old(list)@, para),
        ascending(final(list)@),
{
    proof {
        lemma_with(list@, para);
    }
    match binary_search(list, para) {
        Ok(i) => {
            assert(list@[i as int] == para);
        },
        Err(i) => {
            list.insert(i, para);
        },
    }
}

/// Takes `para` out of an ascending list, if it is there.
pub fn remove(list: &mut Vec<ParaId>, para: ParaId)
    requires
        ascending(old(list)@),
    ensures
        final(list)@ == without(old(list)@, para),
        ascending(final(list)@),
{
    proof {
        lemma_filter_ascending(list@, other_than(para));
    }
    match binary_search(list, para) {
        Ok(i) => {
            proof {
                lemma_without_at(list@, i as int);
            }
            list.remove(i);
        },
        Err(_) => {
            proof {
                lemma_without_absent(list@, para);
            }
        },
    }
}

} // verus!
