//! In which order a round of dispatching gives the paras their turns.
use vstd::arithmetic::div_mod::{lemma_mod_bound, lemma_mod_self_0, lemma_small_mod};
use vstd::prelude::*;

use crate::laws::round::{
    handled_of,
    in_progress,
    law_round_goes_on_until_it_is_over,
    law_turns_go_round,
    lemma_round_in_progress,
    lemma_turn_in_progress,
    total_cost,
};
use crate::primitives::ParaId;
use crate::router::dispatch::{backlog, lemma_turn_decreases, queue_of, rest_of, RoundState};
use crate::sorted::{ascending, lemma_filter_ascending, lemma_with, other_than, without};

verus! {

/// Going up from `a`, and on from the lowest id behind the highest, `c` comes before `b`. Going from
/// a para to itself is going all the way round.
pub open spec fn between(a: ParaId, c: ParaId, b: ParaId) -> bool {
    if a.0 < b.0 {
        a.0 < c.0 && c.0 < b.0
    } else {
        a.0 < c.0 || c.0 < b.0
    }
}

/// Starting with `a` itself and going round, `c` comes before `b`.
pub open spec fn before(a: ParaId, c: ParaId, b: ParaId) -> bool {
    if a.0 <= b.0 {
        a.0 <= c.0 && c.0 < b.0
    } else {
        a.0 <= c.0 || c.0 < b.0
    }
}

/// The para that a round starts with: the one that it is given, if it is listed, and the first one
/// that is listed otherwise.
pub open spec fn first_in_line(pending: Seq<ParaId>, start_with: Option<ParaId>) -> ParaId {
    match start_with {
        Some(p) => if pending.contains(p) {
            p
        } else {
            pending[0]
        },
        None => pending[0],
    }
}

/// To give `b` the turn after the messages that were handled would be to pass over `c`.
spec fn passed_over(
    first: ParaId,
    handled: Seq<(ParaId, Seq<u8>)>,
    c: ParaId,
    b: ParaId,
) -> bool {
    if handled.len() == 0 {
        before(first, c, b)
    } else {
        between(handled.last().0, c, b)
    }
}

/// Messages of a listed para are left after some have been handled.
spec fn messages_left(
    pending: Seq<ParaId>,
    queues: Map<ParaId, Seq<Seq<u8>>>,
    handled: Seq<(ParaId, Seq<u8>)>,
    p: ParaId,
) -> bool {
    pending.contains(p) && handled_of(handled, p).len() < queue_of(queues, p).len()
}

/// What holds of the messages handled so far, of the paras that are still listed and of those that
/// have had a turn, seen from the lists that the round began with.
spec fn orderly(
    pending: Seq<ParaId>,
    queues: Map<ParaId, Seq<Seq<u8>>>,
    first: ParaId,
    state: RoundState,
) -> bool {
    let h = state.handled;
    &&& forall|i: int|
        0 <= i < h.len() ==> {
            let done = h.take(i);
            &&& messages_left(pending, queues, done, (#[trigger] h[i]).0)
            &&& h[i].1 == queue_of(queues, h[i].0)[handled_of(done, h[i].0).len() as int]
        }
    &&& forall|i: int, c: ParaId|
        0 <= i < h.len() && #[trigger] messages_left(pending, queues, h.take(i), c) ==> !passed_over(
            first,
            h.take(i),
            c,
            h[i].0,
        )
    &&& forall|c: ParaId| #[trigger]
        pending.contains(c) && queue_of(state.queues, c).len() > 0 ==> state.pending.contains(c)
    &&& forall|c: ParaId| #[trigger]
        state.pending.contains(c) && state.taken.contains(c) ==> queue_of(state.queues, c).len() > 0
    &&& forall|i: int| 0 <= i < h.len() ==> state.taken.contains((#[trigger] h[i]).0)
    &&& forall|c: ParaId| #[trigger]
        state.taken.contains(c) && handled_of(h, c).len() == 0 ==> queue_of(queues, c).len() == 0
}

/// The turn is that of the para that comes next among those that are listed.
spec fn on_turn(first: ParaId, state: RoundState) -> bool {
    state.cursor < state.pending.len() ==> forall|c: ParaId| #[trigger]
        state.pending.contains(c) ==> !passed_over(first, state.handled, c, state.dispatchee())
}

/// In an ascending list nothing lies between a para and the one at the next position.
proof fn lemma_nothing_between(list: Seq<ParaId>, i: int, c: ParaId)
    requires
        ascending(list),
        0 <= i < list.len(),
        list.contains(c),
    ensures
        0 <= (i + 1) % list.len() as int,
        (i + 1) % (list.len() as int) < list.len(),
        !between(list[i], c, list[(i + 1) % list.len() as int]),
{
    let n = list.len() as int;
    let k = choose|k: int| 0 <= k < list.len() && list[k] == c;
    lemma_mod_bound(i + 1, n);
    if i + 1 == n {
        lemma_mod_self_0(n);
        assert(list[0].0 <= list[k].0 <= list[n - 1].0);
        assert(list[0].0 <= list[n - 1].0);
    } else {
        lemma_small_mod((i + 1) as nat, n as nat);
        assert(list[i].0 < list[i + 1].0);
        if k <= i {
            assert(list[k].0 <= list[i].0);
        } else {
            assert(list[i + 1].0 <= list[k].0);
        }
    }
}

proof fn lemma_turn_orderly(
    pending: Seq<ParaId>,
    queues: Map<ParaId, Seq<Seq<u8>>>,
    first: ParaId,
    state: RoundState,
    preferred_weight: nat,
    cost: spec_fn(Seq<u8>) -> nat,
)
    requires
        in_progress(pending, queues, state, preferred_weight, cost),
        orderly(pending, queues, first, state),
        on_turn(first, state),
        state.cursor < state.pending.len(),
        state.weight < preferred_weight,
    ensures
        orderly(pending, queues, first, state.turn(cost)),
        on_turn(first, state.turn(cost)),
{
    let d = state.dispatchee();
    let queue = state.front_queue();
    let after = state.turn(cost);
    let h = state.handled;
    let g = after.handled;
    assert(state.pending.contains(d));
    assert(pending.contains(d));
    lemma_with(state.taken, d);
    lemma_filter_ascending(state.pending, other_than(d));
    assert forall|c: ParaId| #[trigger]
        without(state.pending, d).contains(c) <==> state.pending.contains(c) && c != d by {
        assert(without(state.pending, d).contains(c) <==> state.pending.contains(c) && other_than(
            d,
        )(c));
    }
    assert forall|c: ParaId| c != d implies queue_of(after.queues, c) == queue_of(state.queues, c) by {}
    assert(queue_of(after.queues, d) == rest_of(queue));
    assert forall|i: int| 0 <= i <= h.len() implies #[trigger] g.take(i) == h.take(i) by {
        assert(g.take(i) =~= h.take(i));
    }
    assert(h.take(h.len() as int) =~= h);
    assert(queue_of(queues, d) == handled_of(h, d) + queue);
    if queue.len() > 0 {
        assert(g == h.push((d, queue[0])));
        assert(g.drop_last() =~= h);
        assert forall|i: int| 0 <= i < g.len() implies {
            let done = g.take(i);
            &&& messages_left(pending, queues, done, (#[trigger] g[i]).0)
            &&& g[i].1 == queue_of(queues, g[i].0)[handled_of(done, g[i].0).len() as int]
        } by {
            assert(g.take(i) == h.take(i));
            if i < h.len() {
                assert(g[i] == h[i]);
            } else {
                assert(g.take(i) == h);
                assert(g[i] == (d, queue[0]));
            }
        }
        assert forall|i: int, c: ParaId|
            0 <= i < g.len() && #[trigger] messages_left(pending, queues, g.take(i), c) implies !passed_over(
            first,
            g.take(i),
            c,
            g[i].0,
        ) by {
            assert(g.take(i) == h.take(i));
            if i < h.len() {
                assert(messages_left(pending, queues, h.take(i), c));
                assert(g[i] == h[i]);
            } else {
                assert(g.take(i) == h);
                assert(queue_of(queues, c) == handled_of(h, c) + queue_of(state.queues, c));
                assert(pending.contains(c));
                assert(state.pending.contains(c));
            }
        }
        assert forall|i: int| 0 <= i < g.len() implies after.taken.contains((#[trigger] g[i]).0) by {
            if i < h.len() {
                assert(g[i] == h[i]);
                assert(state.taken.contains(h[i].0));
            }
        }
    } else {
        assert(queue_of(queues, d) =~= handled_of(h, d));
    }
    assert forall|c: ParaId| #[trigger]
        pending.contains(c) && queue_of(after.queues, c).len() > 0 implies after.pending.contains(c) by {
        if c != d {
            assert(queue_of(after.queues, c) == queue_of(state.queues, c));
            assert(state.pending.contains(c));
        }
    }
    assert forall|c: ParaId| #[trigger]
        after.pending.contains(c) && after.taken.contains(c) implies queue_of(after.queues, c).len()
        > 0 by {
        if c != d {
            assert(queue_of(after.queues, c) == queue_of(state.queues, c));
            assert(state.pending.contains(c));
            assert(state.taken.contains(c));
        }
    }
    assert forall|c: ParaId| #[trigger]
        after.taken.contains(c) && handled_of(g, c).len() == 0 implies queue_of(queues, c).len() == 0 by {
        if c == d {
            if queue.len() > 0 {
                assert(handled_of(g, d) == handled_of(h, d).push(queue[0]));
            }
        } else {
            assert(handled_of(g, c) == handled_of(h, c));
            assert(state.taken.contains(c));
        }
    }
    if after.cursor < after.pending.len() {
        law_turns_go_round(state, cost);
        let i = state.cursor as int;
        let e = after.dispatchee();
        assert(e == state.pending[(i + 1) % state.pending.len() as int]);
        lemma_nothing_between(state.pending, i, d);
        assert(state.pending.contains(e));
        assert forall|c: ParaId| #[trigger] after.pending.contains(c) implies !passed_over(
            first,
            g,
            c,
            e,
        ) by {
            assert(state.pending.contains(c));
            lemma_nothing_between(state.pending, i, c);
            if queue.len() == 0 {
                assert(c != d);
                assert(after.pending.contains(e));
                assert(e != d);
                assert(!passed_over(first, h, c, d));
                assert(!passed_over(first, h, e, d));
            }
        }
    }
}

/// Where a round has stopped, seen from the para that would have had the next turn.
spec fn stopped_after(first: ParaId, end: RoundState, skipped: ParaId) -> bool {
    &&& end.pending.contains(skipped)
    &&& forall|c: ParaId| #[trigger]
        end.pending.contains(c) ==> !passed_over(first, end.handled, c, skipped)
    &&& forall|c: ParaId| #[trigger]
        end.pending.contains(c) ==> !between(skipped, c, end.pending[end.cursor as int])
}

proof fn lemma_finish_orderly(
    pending: Seq<ParaId>,
    queues: Map<ParaId, Seq<Seq<u8>>>,
    first: ParaId,
    state: RoundState,
    preferred_weight: nat,
    cost: spec_fn(Seq<u8>) -> nat,
)
    requires
        in_progress(pending, queues, state, preferred_weight, cost),
        orderly(pending, queues, first, state),
        on_turn(first, state),
    ensures
        ({
            let end = state.finish(preferred_weight, cost);
            &&& orderly(pending, queues, first, end)
            &&& end.cursor < end.pending.len() ==> exists|skipped: ParaId| #[trigger]
                stopped_after(first, end, skipped)
        }),
    decreases state.pending.len() + backlog(state.pending, state.queues),
{
    if state.cursor < state.pending.len() {
        if state.weight < preferred_weight {
            lemma_turn_in_progress(pending, queues, state, preferred_weight, cost);
            lemma_turn_orderly(pending, queues, first, state, preferred_weight, cost);
            lemma_turn_decreases(state, cost);
            lemma_finish_orderly(pending, queues, first, state.turn(cost), preferred_weight, cost);
        } else {
            let end = state.finish(preferred_weight, cost);
            let d = state.dispatchee();
            assert(state.pending.contains(d));
            assert forall|c: ParaId| #[trigger] end.pending.contains(c) implies !between(
                d,
                c,
                end.pending[end.cursor as int],
            ) by {
                lemma_nothing_between(state.pending, state.cursor as int, c);
            }
            assert(stopped_after(first, end, d));
        }
    }
}

proof fn lemma_round_orderly(
    pending: Seq<ParaId>,
    start_with: Option<ParaId>,
    queues: Map<ParaId, Seq<Seq<u8>>>,
    preferred_weight: nat,
    cost: spec_fn(Seq<u8>) -> nat,
)
    requires
        ascending(pending),
    ensures
        ({
            let first = first_in_line(pending, start_with);
            let end = RoundState::begin(pending, start_with, queues).finish(preferred_weight, cost);
            &&& orderly(pending, queues, first, end)
            &&& end.cursor < end.pending.len() ==> exists|skipped: ParaId| #[trigger]
                stopped_after(first, end, skipped)
        }),
{
    let first = first_in_line(pending, start_with);
    let begun = RoundState::begin(pending, start_with, queues);
    assert forall|p: ParaId|
        queue_of(queues, p) == #[trigger] handled_of(begun.handled, p) + queue_of(begun.queues, p) by {
        assert(Seq::<Seq<u8>>::empty() + queue_of(queues, p) =~= queue_of(queues, p));
    }
    if begun.cursor < begun.pending.len() {
        if let Some(p) = start_with {
            if pending.contains(p) {
                let i = pending.index_of(p);
                assert(0 <= i < pending.len() && pending[i] == p);
            }
        }
        assert(begun.dispatchee() == first);
    }
    lemma_finish_orderly(pending, queues, first, begun, preferred_weight, cost);
}

/// Every message that a round handles is the oldest one left of a listed para.
pub proof fn law_handled_messages_are_the_oldest_left(
    pending: Seq<ParaId>,
    start_with: Option<ParaId>,
    queues: Map<ParaId, Seq<Seq<u8>>>,
    preferred_weight: nat,
    cost: spec_fn(Seq<u8>) -> nat,
    i: int,
)
    requires
        ascending(pending),
        0 <= i < RoundState::begin(pending, start_with, queues).finish(
            preferred_weight,
            cost,
        ).handled.len(),
    ensures
        ({
            let h = RoundState::begin(pending, start_with, queues).finish(
                preferred_weight,
                cost,
            ).handled;
            let p = h[i].0;
            let done = handled_of(h.take(i), p).len();
            &&& pending.contains(p)
            &&& done < queue_of(queues, p).len()
            &&& h[i].1 == queue_of(queues, p)[done as int]
        }),
{
    lemma_round_orderly(pending, start_with, queues, preferred_weight, cost);
    let h = RoundState::begin(pending, start_with, queues).finish(preferred_weight, cost).handled;
    assert(messages_left(pending, queues, h.take(i), h[i].0));
}

/// The paras take turns: the next message that a round handles after one of a para is of the para
/// that comes next among those that have messages left, going up by id and on from the lowest behind
/// the highest. No para with messages left is passed over.
pub proof fn law_paras_take_turns(
    pending: Seq<ParaId>,
    start_with: Option<ParaId>,
    queues: Map<ParaId, Seq<Seq<u8>>>,
    preferred_weight: nat,
    cost: spec_fn(Seq<u8>) -> nat,
    i: int,
    p: ParaId,
)
    requires
        ascending(pending),
        0 < i < RoundState::begin(pending, start_with, queues).finish(
            preferred_weight,
            cost,
        ).handled.len(),
        pending.contains(p),
        handled_of(
            RoundState::begin(pending, start_with, queues).finish(
                preferred_weight,
                cost,
            ).handled.take(i),
            p,
        ).len() < queue_of(queues, p).len(),
    ensures
        ({
            let h = RoundState::begin(pending, start_with, queues).finish(
                preferred_weight,
                cost,
            ).handled;
            let from = (h[i - 1].0).0;
            let to = (h[i].0).0;
            &&& from < to ==> !(from < p.0 && p.0 < to)
            &&& to <= from ==> !(from < p.0 || p.0 < to)
        }),
{
    lemma_round_orderly(pending, start_with, queues, preferred_weight, cost);
    let h = RoundState::begin(pending, start_with, queues).finish(preferred_weight, cost).handled;
    assert(messages_left(pending, queues, h.take(i), p));
    assert(h.take(i).last() == h[i - 1]);
}

/// The first message that a round handles is of the para that it is to start with, if that has
/// messages, or else of the one that comes next among those that have some. A round that is given no
/// listed para starts with the first one that is listed.
pub proof fn law_first_turn(
    pending: Seq<ParaId>,
    start_with: Option<ParaId>,
    queues: Map<ParaId, Seq<Seq<u8>>>,
    preferred_weight: nat,
    cost: spec_fn(Seq<u8>) -> nat,
    p: ParaId,
)
    requires
        ascending(pending),
        RoundState::begin(pending, start_with, queues).finish(
            preferred_weight,
            cost,
        ).handled.len() > 0,
        pending.contains(p),
        queue_of(queues, p).len() > 0,
    ensures
        ({
            let first = RoundState::begin(pending, start_with, queues).finish(
                preferred_weight,
                cost,
            ).handled[0];
            let given = start_with is Some && pending.contains(start_with->0);
            let from = if given {
                (start_with->0).0
            } else {
                pending[0].0
            };
            let to = (first.0).0;
            &&& from <= to ==> !(from <= p.0 && p.0 < to)
            &&& to < from ==> !(from <= p.0 || p.0 < to)
        }),
{
    lemma_round_orderly(pending, start_with, queues, preferred_weight, cost);
    let h = RoundState::begin(pending, start_with, queues).finish(preferred_weight, cost).handled;
    assert(h.take(0) =~= Seq::<(ParaId, Seq<u8>)>::empty());
    assert(messages_left(pending, queues, h.take(0), p));
}

/// A round that has not used up the preferred weight has handled every message of every listed para.
pub proof fn law_round_below_its_weight_is_complete(
    pending: Seq<ParaId>,
    start_with: Option<ParaId>,
    queues: Map<ParaId, Seq<Seq<u8>>>,
    preferred_weight: nat,
    cost: spec_fn(Seq<u8>) -> nat,
    p: ParaId,
)
    requires
        ascending(pending),
        pending.contains(p),
        total_cost(
            RoundState::begin(pending, start_with, queues).finish(preferred_weight, cost).handled,
            cost,
        ) < preferred_weight,
    ensures
        handled_of(
            RoundState::begin(pending, start_with, queues).finish(preferred_weight, cost).handled,
            p,
        ) == queue_of(queues, p),
{
    let end = RoundState::begin(pending, start_with, queues).finish(preferred_weight, cost);
    lemma_round_orderly(pending, start_with, queues, preferred_weight, cost);
    lemma_round_in_progress(pending, start_with, queues, preferred_weight, cost);
    law_round_goes_on_until_it_is_over(
        pending,
        start_with,
        queues,
        preferred_weight,
        cost,
    );
    assert(pending.contains(p));
    assert(!end.pending.contains(p));
    assert(queue_of(queues, p) == handled_of(end.handled, p) + queue_of(end.queues, p));
    assert(handled_of(end.handled, p) + queue_of(end.queues, p) =~= handled_of(end.handled, p));
}

/// A round that leaves paras listed tells one of them to start the next round with: the one behind
/// the one that would have had the next turn, which is passed over.
pub proof fn law_where_the_next_round_starts(
    pending: Seq<ParaId>,
    start_with: Option<ParaId>,
    queues: Map<ParaId, Seq<Seq<u8>>>,
    preferred_weight: nat,
    cost: spec_fn(Seq<u8>) -> nat,
)
    requires
        ascending(pending),
    ensures
        ({
            let end = RoundState::begin(pending, start_with, queues).finish(preferred_weight, cost);
            match end.next_start() {
                None => end.pending.len() == 0,
                Some(start) => {
                    &&& end.pending.contains(start)
                    &&& exists|skipped: ParaId|
                        {
                            &&& #[trigger] end.pending.contains(skipped)
                            &&& forall|c: ParaId| #[trigger]
                                end.pending.contains(c) ==> !between(skipped, c, start) && if end.handled.len()
                                    == 0 {
                                    !before(first_in_line(pending, start_with), c, skipped)
                                } else {
                                    !between(end.handled.last().0, c, skipped)
                                }
                        }
                },
            }
        }),
{
    let first = first_in_line(pending, start_with);
    let end = RoundState::begin(pending, start_with, queues).finish(preferred_weight, cost);
    lemma_round_orderly(pending, start_with, queues, preferred_weight, cost);
    law_round_goes_on_until_it_is_over(
        pending,
        start_with,
        queues,
        preferred_weight,
        cost,
    );
    if end.cursor < end.pending.len() {
        let skipped = choose|skipped: ParaId| #[trigger] stopped_after(first, end, skipped);
        assert(end.pending.contains(skipped));
        assert(end.pending.contains(end.pending[end.cursor as int]));
    }
}

/// A para had a turn if a message of it was handled, or if it was listed without messages and has
/// been delisted. Of the paras that were listed those stay listed that had no turn or that have
/// messages left.
pub proof fn law_turns_and_the_list(
    pending: Seq<ParaId>,
    start_with: Option<ParaId>,
    queues: Map<ParaId, Seq<Seq<u8>>>,
    preferred_weight: nat,
    cost: spec_fn(Seq<u8>) -> nat,
    p: ParaId,
)
    requires
        ascending(pending),
    ensures
        ({
            let end = RoundState::begin(pending, start_with, queues).finish(preferred_weight, cost);
            let done = handled_of(end.handled, p).len();
            &&& done <= queue_of(queues, p).len()
            &&& end.taken.contains(p) <==> done > 0 || (pending.contains(p) && queue_of(queues, p).len()
                == 0 && !end.pending.contains(p))
            &&& done > 0 ==> pending.contains(p) && (end.pending.contains(p) <==> done < queue_of(
                queues,
                p,
            ).len())
            &&& done == 0 && queue_of(queues, p).len() > 0 ==> (end.pending.contains(p)
                <==> pending.contains(p))
            &&& end.pending.contains(p) ==> pending.contains(p)
        }),
{
    let end = RoundState::begin(pending, start_with, queues).finish(preferred_weight, cost);
    lemma_round_orderly(pending, start_with, queues, preferred_weight, cost);
    lemma_round_in_progress(pending, start_with, queues, preferred_weight, cost);
    assert(queue_of(queues, p) == handled_of(end.handled, p) + queue_of(end.queues, p));
    if handled_of(end.handled, p).len() > 0 {
        lemma_handled_somewhere(end.handled, p);
        let i = choose|i: int| 0 <= i < end.handled.len() && (#[trigger] end.handled[i]).0 == p;
        assert(end.taken.contains(end.handled[i].0));
    }
}

proof fn lemma_handled_somewhere(handled: Seq<(ParaId, Seq<u8>)>, p: ParaId)
    requires
        handled_of(handled, p).len() > 0,
    ensures
        exists|i: int| 0 <= i < handled.len() && (#[trigger] handled[i]).0 == p,
    decreases handled.len(),
{
    if handled.last().0 == p {
        assert(handled[handled.len() - 1].0 == p);
    } else {
        let init = handled.drop_last();
        lemma_handled_somewhere(init, p);
        let i = choose|i: int| 0 <= i < init.len() && (#[trigger] init[i]).0 == p;
        assert(handled[i].0 == p);
    }
}

} // verus!
