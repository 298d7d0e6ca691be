//! What holds of every round of dispatching.
use vstd::arithmetic::div_mod::{lemma_mod_bound, lemma_mod_self_0, lemma_small_mod};
use vstd::prelude::*;

use crate::primitives::ParaId;
use crate::router::dispatch::{backlog, lemma_turn_decreases, queue_of, rest_of, RoundState};
use crate::sorted::{
    ascending,
    lemma_filter_all,
    lemma_filter_ascending,
    lemma_filter_twice,
    lemma_with,
    lemma_without_at,
    other_than,
    without,
};

verus! {

/// The messages of one para among those that a round handled, in the order in which it handled
/// them.
pub open spec fn handled_of(handled: Seq<(ParaId, Seq<u8>)>, para: ParaId) -> Seq<Seq<u8>>
    decreases handled.len(),
{
    if handled.len() == 0 {
        Seq::empty()
    } else {
        let earlier = handled_of(handled.drop_last(), para);
        if handled.last().0 == para {
            earlier.push(handled.last().1)
        } else {
            earlier
        }
    }
}

/// The weight that the messages use up in all.
pub open spec fn total_cost(handled: Seq<(ParaId, Seq<u8>)>, cost: spec_fn(Seq<u8>) -> nat) -> nat
    decreases handled.len(),
{
    if handled.len() == 0 {
        0
    } else {
        total_cost(handled.drop_last(), cost) + cost(handled.last().1)
    }
}

/// Having messages that wait.
pub open spec fn waiting(queues: Map<ParaId, Seq<Seq<u8>>>) -> spec_fn(ParaId) -> bool {
    |p: ParaId| queue_of(queues, p).len() > 0
}

/// What holds of a round at every turn, seen from the lists that it began with.
pub open spec fn in_progress(
    pending: Seq<ParaId>,
    queues: Map<ParaId, Seq<Seq<u8>>>,
    state: RoundState,
    preferred_weight: nat,
    cost: spec_fn(Seq<u8>) -> nat,
) -> bool {
    &&& ascending(state.pending)
    &&& forall|p: ParaId| #[trigger] state.pending.contains(p) ==> pending.contains(p)
    &&& ascending(state.taken)
    &&& forall|p: ParaId| #[trigger] state.taken.contains(p) ==> pending.contains(p)
    &&& forall|p: ParaId|
        !(#[trigger] state.taken.contains(p)) ==> {
            &&& state.queues.contains_key(p) == queues.contains_key(p)
            &&& queue_of(state.queues, p) == queue_of(queues, p)
            &&& state.pending.contains(p) == pending.contains(p)
        }
    &&& forall|p: ParaId|
        queue_of(queues, p) == #[trigger] handled_of(state.handled, p) + queue_of(state.queues, p)
    &&& forall|i: int| 0 <= i < state.handled.len() ==> pending.contains((#[trigger] state.handled[i]).0)
    &&& state.weight == total_cost(state.handled, cost)
    &&& forall|i: int| #![trigger state.handled.take(i)]
        0 <= i < state.handled.len() ==> total_cost(state.handled.take(i), cost) < preferred_weight
}

/// What holds at every turn is kept by a turn.
pub proof fn lemma_turn_in_progress(
    pending: Seq<ParaId>,
    queues: Map<ParaId, Seq<Seq<u8>>>,
    state: RoundState,
    preferred_weight: nat,
    cost: spec_fn(Seq<u8>) -> nat,
)
    requires
        in_progress(pending, queues, state, preferred_weight, cost),
        state.cursor < state.pending.len(),
        state.weight < preferred_weight,
    ensures
        in_progress(pending, queues, state.turn(cost), preferred_weight, cost),
{
    let para = state.dispatchee();
    let queue = state.front_queue();
    let after = state.turn(cost);
    assert(state.pending.contains(para));
    lemma_filter_ascending(state.pending, other_than(para));
    lemma_with(state.taken, para);
    assert forall|p: ParaId| !(#[trigger] after.taken.contains(p)) implies {
        &&& after.queues.contains_key(p) == queues.contains_key(p)
        &&& queue_of(after.queues, p) == queue_of(queues, p)
        &&& after.pending.contains(p) == pending.contains(p)
    } by {
        assert(p != para && !state.taken.contains(p));
        assert(queue_of(after.queues, p) == queue_of(state.queues, p));
        assert(without(state.pending, para).contains(p) <==> state.pending.contains(p) && other_than(
            para,
        )(p));
    }
    if queue.len() > 0 {
        assert(after.handled.drop_last() =~= state.handled);
        assert forall|i: int| 0 <= i < after.handled.len() implies pending.contains(
            (#[trigger] after.handled[i]).0,
        ) by {
            if i < state.handled.len() {
                assert(after.handled[i] == state.handled[i]);
            }
        }
        assert forall|i: int| #![trigger after.handled.take(i)] 0 <= i < after.handled.len() implies
            total_cost(after.handled.take(i), cost) < preferred_weight by {
            if i < state.handled.len() {
                assert(after.handled.take(i) =~= state.handled.take(i));
            } else {
                assert(after.handled.take(i) =~= state.handled);
            }
        }
    }
    assert forall|p: ParaId|
        queue_of(queues, p) == #[trigger] handled_of(after.handled, p) + queue_of(after.queues, p) by {
        assert(queue_of(queues, p) == handled_of(state.handled, p) + queue_of(state.queues, p));
        if p == para {
            assert(queue_of(after.queues, p) == rest_of(queue));
            if queue.len() > 0 {
                assert(handled_of(state.handled, p).push(queue[0]) + queue.drop_first()
                    =~= handled_of(state.handled, p) + queue);
            }
        } else {
            assert(queue_of(after.queues, p) == queue_of(state.queues, p));
        }
    }
}

proof fn lemma_finish_in_progress(
    pending: Seq<ParaId>,
    queues: Map<ParaId, Seq<Seq<u8>>>,
    state: RoundState,
    preferred_weight: nat,
    cost: spec_fn(Seq<u8>) -> nat,
)
    requires
        in_progress(pending, queues, state, preferred_weight, cost),
    ensures
        in_progress(pending, queues, state.finish(preferred_weight, cost), preferred_weight, cost),
    decreases state.pending.len() + backlog(state.pending, state.queues),
{
    if state.cursor < state.pending.len() && state.weight < preferred_weight {
        lemma_turn_in_progress(pending, queues, state, preferred_weight, cost);
        lemma_turn_decreases(state, cost);
        lemma_finish_in_progress(pending, queues, state.turn(cost), preferred_weight, cost);
    }
}

/// What holds at every turn holds at the end of a round.
pub proof fn lemma_round_in_progress(
    pending: Seq<ParaId>,
    start_with: Option<ParaId>,
    queues: Map<ParaId, Seq<Seq<u8>>>,
    preferred_weight: nat,
    cost: spec_fn(Seq<u8>) -> nat,
)
    requires
        ascending(pending),
    ensures
        in_progress(
            pending,
            queues,
            RoundState::begin(pending, start_with, queues).finish(preferred_weight, cost),
            preferred_weight,
            cost,
        ),
{
    let begun = RoundState::begin(pending, start_with, queues);
    assert forall|p: ParaId|
        queue_of(queues, p) == #[trigger] handled_of(begun.handled, p) + queue_of(begun.queues, p) by {
        assert(Seq::<Seq<u8>>::empty() + queue_of(queues, p) =~= queue_of(queues, p));
    }
    lemma_finish_in_progress(pending, queues, begun, preferred_weight, cost);
}

/// The messages of a para are handled in the order in which they came: those that a round handles
/// of it, followed by those that it leaves, are the queue with which the round began.
pub proof fn law_round_is_fifo(
    pending: Seq<ParaId>,
    start_with: Option<ParaId>,
    queues: Map<ParaId, Seq<Seq<u8>>>,
    preferred_weight: nat,
    cost: spec_fn(Seq<u8>) -> nat,
    para: ParaId,
)
    requires
        ascending(pending),
    ensures
        ({
            let end = RoundState::begin(pending, start_with, queues).finish(preferred_weight, cost);
            queue_of(queues, para) == handled_of(end.handled, para) + queue_of(end.queues, para)
        }),
{
    lemma_round_in_progress(pending, start_with, queues, preferred_weight, cost);
    let end = RoundState::begin(pending, start_with, queues).finish(preferred_weight, cost);
    assert(queue_of(queues, para) == handled_of(end.handled, para) + queue_of(end.queues, para));
}

/// A round handles messages only of paras that were listed when it began.
pub proof fn law_round_handles_listed_paras_only(
    pending: Seq<ParaId>,
    start_with: Option<ParaId>,
    queues: Map<ParaId, Seq<Seq<u8>>>,
    preferred_weight: nat,
    cost: spec_fn(Seq<u8>) -> nat,
)
    requires
        ascending(pending),
    ensures
        ({
            let end = RoundState::begin(pending, start_with, queues).finish(preferred_weight, cost);
            forall|i: int|
                0 <= i < end.handled.len() ==> pending.contains((#[trigger] end.handled[i]).0)
        }),
{
    lemma_round_in_progress(pending, start_with, queues, preferred_weight, cost);
}

/// A round takes a message only as long as the weight used up before it is below the preferred
/// weight, and the weight that it has used up in the end is that of the messages it handled.
pub proof fn law_round_respects_preferred_weight(
    pending: Seq<ParaId>,
    start_with: Option<ParaId>,
    queues: Map<ParaId, Seq<Seq<u8>>>,
    preferred_weight: nat,
    cost: spec_fn(Seq<u8>) -> nat,
)
    requires
        ascending(pending),
    ensures
        ({
            let end = RoundState::begin(pending, start_with, queues).finish(preferred_weight, cost);
            &&& end.weight == total_cost(end.handled, cost)
            &&& forall|i: int| #![trigger end.handled.take(i)]
                0 <= i < end.handled.len() ==> total_cost(end.handled.take(i), cost)
                    < preferred_weight
        }),
{
    lemma_round_in_progress(pending, start_with, queues, preferred_weight, cost);
}

/// If no message costs more than `most`, a round uses up less than the preferred weight and that
/// on top, or nothing at all.
pub proof fn law_round_weight_is_bounded(
    pending: Seq<ParaId>,
    start_with: Option<ParaId>,
    queues: Map<ParaId, Seq<Seq<u8>>>,
    preferred_weight: nat,
    cost: spec_fn(Seq<u8>) -> nat,
    most: nat,
)
    requires
        ascending(pending),
        forall|message: Seq<u8>| #[trigger] cost(message) <= most,
    ensures
        ({
            let end = RoundState::begin(pending, start_with, queues).finish(preferred_weight, cost);
            end.weight == 0 || end.weight < preferred_weight + most
        }),
{
    lemma_round_in_progress(pending, start_with, queues, preferred_weight, cost);
    let end = RoundState::begin(pending, start_with, queues).finish(preferred_weight, cost);
    if end.handled.len() > 0 {
        assert(end.handled.take(end.handled.len() - 1) =~= end.handled.drop_last());
        assert(cost(end.handled.last().1) <= most);
    }
}

/// The cursor is at a para of the list, unless the list is empty.
pub open spec fn cursor_in_list(state: RoundState) -> bool {
    state.pending.len() > 0 ==> state.cursor < state.pending.len()
}

proof fn lemma_finish_ends(state: RoundState, preferred_weight: nat, cost: spec_fn(Seq<u8>) -> nat)
    requires
        cursor_in_list(state),
    ensures
        ({
            let end = state.finish(preferred_weight, cost);
            &&& cursor_in_list(end)
            &&& end.pending.len() == 0 || end.weight >= preferred_weight
        }),
    decreases state.pending.len() + backlog(state.pending, state.queues),
{
    if state.pending.len() > 0 {
        lemma_mod_bound((state.cursor + 1) as int, state.pending.len() as int);
        if state.weight < preferred_weight {
            let after = state.turn(cost);
            if after.pending.len() > 0 {
                lemma_mod_bound(state.cursor as int, after.pending.len() as int);
            }
            lemma_turn_decreases(state, cost);
            lemma_finish_ends(after, preferred_weight, cost);
        }
    }
}

/// A round goes on until no para is left or the preferred weight is used up. If it leaves paras
/// listed, it tells which of them the next round starts with.
pub proof fn law_round_goes_on_until_it_is_over(
    pending: Seq<ParaId>,
    start_with: Option<ParaId>,
    queues: Map<ParaId, Seq<Seq<u8>>>,
    preferred_weight: nat,
    cost: spec_fn(Seq<u8>) -> nat,
)
    ensures
        ({
            let end = RoundState::begin(pending, start_with, queues).finish(preferred_weight, cost);
            &&& end.pending.len() == 0 || end.weight >= preferred_weight
            &&& match end.next_start() {
                Some(p) => end.pending.contains(p),
                None => end.pending.len() == 0,
            }
        }),
{
    let begun = RoundState::begin(pending, start_with, queues);
    if let Some(p) = start_with {
        if pending.contains(p) {
            let i = pending.index_of(p);
            assert(0 <= i < pending.len() && pending[i] == p);
        }
    }
    lemma_finish_ends(begun, preferred_weight, cost);
    let end = begun.finish(preferred_weight, cost);
    if end.pending.len() > 0 {
        assert(end.pending.contains(end.pending[end.cursor as int]));
    }
}

/// After a turn it is the turn of the para that was behind the one that had it, or of the first one
/// if that was the last, whether or not the para has left the list.
pub proof fn law_turns_go_round(state: RoundState, cost: spec_fn(Seq<u8>) -> nat)
    requires
        ascending(state.pending),
        state.cursor < state.pending.len(),
        state.turn(cost).pending.len() > 0,
    ensures
        state.turn(cost).cursor < state.turn(cost).pending.len(),
        state.turn(cost).dispatchee() == state.pending[state.next_position() as int],
{
    let after = state.turn(cost);
    let i = state.cursor as int;
    let n = state.pending.len() as int;
    lemma_mod_bound(i + 1, n);
    lemma_mod_bound(i, after.pending.len() as int);
    lemma_without_at(state.pending, i);
    if i + 1 == n {
        lemma_mod_self_0(n);
    } else {
        lemma_small_mod((i + 1) as nat, n as nat);
    }
    if rest_of(state.front_queue()).len() == 0 {
        assert(after.pending.len() == n - 1);
        if i + 1 == n {
            lemma_mod_self_0(i);
        } else {
            lemma_small_mod(i as nat, (n - 1) as nat);
        }
    }
}

/// With a preferred weight of zero no para has a turn, nothing is handled, and no para leaves the
/// list.
pub proof fn law_no_weight_no_dispatch(
    pending: Seq<ParaId>,
    start_with: Option<ParaId>,
    queues: Map<ParaId, Seq<Seq<u8>>>,
    cost: spec_fn(Seq<u8>) -> nat,
)
    ensures
        ({
            let end = RoundState::begin(pending, start_with, queues).finish(0, cost);
            &&& end.handled == Seq::<(ParaId, Seq<u8>)>::empty()
            &&& end.taken == Seq::<ParaId>::empty()
            &&& end.pending == pending
            &&& end.queues == queues
        }),
{
}

proof fn lemma_finish_keeps_waiting(
    pending: Seq<ParaId>,
    state: RoundState,
    preferred_weight: nat,
    cost: spec_fn(Seq<u8>) -> nat,
)
    requires
        state.pending == pending.filter(waiting(state.queues)),
        ascending(pending),
    ensures
        ({
            let end = state.finish(preferred_weight, cost);
            end.pending == pending.filter(waiting(end.queues))
        }),
    decreases state.pending.len() + backlog(state.pending, state.queues),
{
    if state.cursor < state.pending.len() && state.weight < preferred_weight {
        let para = state.dispatchee();
        let after = state.turn(cost);
        lemma_filter_ascending(pending, waiting(state.queues));
        assert(state.pending.contains(para));
        assert(waiting(state.queues)(para));
        assert forall|p: ParaId| p != para implies queue_of(after.queues, p) == queue_of(
            state.queues,
            p,
        ) by {}
        let drained = rest_of(state.front_queue()).len() == 0;
        let keep = if drained {
            other_than(para)
        } else {
            |p: ParaId| true
        };
        assert forall|i: int| 0 <= i < pending.len() implies (waiting(after.queues)(
            #[trigger] pending[i],
        ) <==> waiting(state.queues)(pending[i]) && keep(pending[i])) by {
            if pending[i] != para {
                assert(queue_of(after.queues, pending[i]) == queue_of(state.queues, pending[i]));
            }
        }
        lemma_filter_twice(pending, waiting(state.queues), keep, waiting(after.queues));
        if !drained {
            lemma_filter_all(state.pending, keep);
        }
        lemma_turn_decreases(state, cost);
        lemma_finish_keeps_waiting(pending, after, preferred_weight, cost);
    }
}

/// If messages wait for every listed para when a round begins, then a para leaves the list exactly
/// when the round has handled all that waited for it. The others stay, in their order.
pub proof fn law_round_delists_drained_paras(
    pending: Seq<ParaId>,
    start_with: Option<ParaId>,
    queues: Map<ParaId, Seq<Seq<u8>>>,
    preferred_weight: nat,
    cost: spec_fn(Seq<u8>) -> nat,
)
    requires
        ascending(pending),
        forall|p: ParaId| #[trigger] pending.contains(p) ==> queue_of(queues, p).len() > 0,
    ensures
        ({
            let end = RoundState::begin(pending, start_with, queues).finish(preferred_weight, cost);
            end.pending == pending.filter(waiting(end.queues))
        }),
{
    let begun = RoundState::begin(pending, start_with, queues);
    assert forall|i: int| 0 <= i < pending.len() implies waiting(queues)(#[trigger] pending[i]) by {
        assert(pending.contains(pending[i]));
    }
    lemma_filter_all(pending, waiting(queues));
    lemma_finish_keeps_waiting(pending, begun, preferred_weight, cost);
}

proof fn lemma_finish_extends_handled(
    state: RoundState,
    preferred_weight: nat,
    cost: spec_fn(Seq<u8>) -> nat,
)
    ensures
        state.handled.is_prefix_of(state.finish(preferred_weight, cost).handled),
    decreases state.pending.len() + backlog(state.pending, state.queues),
{
    if state.cursor < state.pending.len() && state.weight < preferred_weight {
        lemma_turn_decreases(state, cost);
        lemma_finish_extends_handled(state.turn(cost), preferred_weight, cost);
        let next = state.turn(cost).handled;
        let end = state.finish(preferred_weight, cost).handled;
        assert(state.handled =~= next.take(state.handled.len() as int));
        assert(next =~= end.take(next.len() as int));
        assert(state.handled =~= end.take(state.handled.len() as int));
    }
}

/// The first message of a round is the oldest one of the para that the round was to start with, if
/// that para is listed and has messages, and if there is weight to use up.
pub proof fn law_round_starts_with_the_given_para(
    pending: Seq<ParaId>,
    para: ParaId,
    queues: Map<ParaId, Seq<Seq<u8>>>,
    preferred_weight: nat,
    cost: spec_fn(Seq<u8>) -> nat,
)
    requires
        pending.contains(para),
        queue_of(queues, para).len() > 0,
        preferred_weight > 0,
    ensures
        ({
            let end = RoundState::begin(pending, Some(para), queues).finish(preferred_weight, cost);
            end.handled.len() > 0 && end.handled[0] == (para, queue_of(queues, para)[0])
        }),
{
    let begun = RoundState::begin(pending, Some(para), queues);
    let i = pending.index_of(para);
    assert(0 <= i < pending.len() && pending[i] == para);
    let next = begun.turn(cost);
    let end = begun.finish(preferred_weight, cost);
    assert(next.handled =~= seq![(para, queue_of(queues, para)[0])]);
    lemma_finish_extends_handled(next, preferred_weight, cost);
    assert(next.handled =~= end.handled.take(next.handled.len() as int));
    assert(end.handled.take(1)[0] == end.handled[0]);
}

} // verus!
