//! What the terms mean in which the contracts and the other laws are stated.
use vstd::arithmetic::div_mod::{lemma_mod_self_0, lemma_small_mod};
use vstd::prelude::*;

use crate::configuration::HostConfiguration;
use crate::laws::order::{before, between, first_in_line};
use crate::laws::round::{handled_of, total_cost};
use crate::laws::storage::consistent;
use crate::primitives::{contents, lemma_payload_size_add, payload_size, ParaId, UpwardMessage};
use crate::router::dispatch::{position_after_removal, queue_of, rest_of, start_position};
use crate::router::state::{capped, cost_under, size_of, RouterState};
use crate::router::ump::{handled_contents, HandledMessage};
use crate::router::{Module, Trait};
use crate::sorted::{
    ascending,
    lemma_filter_ascending,
    lemma_with,
    lemma_without_at,
    none_of,
    other_than,
    with,
    without,
};
use crate::weights::{RuntimeDbWeight, Weight};
use crate::xcm::{cost_of, outcome_of, DecodeError, DispatchOutcome};

verus! {

/// The size of a run of messages is the number of bytes there are when they are written one behind
/// the other. That of a single message is its length.
pub proof fn law_size_counts_the_bytes(messages: Seq<Seq<u8>>, message: Seq<u8>)
    ensures
        payload_size(messages) == messages.flatten().len(),
        payload_size(seq![message]) == message.len(),
        payload_size(messages.push(message)) == payload_size(messages) + message.len(),
{
    lemma_size_is_flat(messages);
    assert(seq![message].drop_last() =~= Seq::<Seq<u8>>::empty());
    assert(payload_size(seq![message].drop_last()) == 0);
    assert(messages.push(message).drop_last() =~= messages);
}

proof fn lemma_size_is_flat(messages: Seq<Seq<u8>>)
    ensures
        payload_size(messages) == messages.flatten().len(),
    decreases messages.len(),
{
    if messages.len() > 0 {
        let head = seq![messages.first()];
        let rest = messages.drop_first();
        lemma_size_is_flat(rest);
        lemma_payload_size_add(head, rest);
        assert(head + rest =~= messages);
        assert(head.drop_last() =~= Seq::<Seq<u8>>::empty());
        assert(payload_size(head.drop_last()) == 0);
    }
}

/// The contents of messages are their bytes, message for message.
pub proof fn law_contents_are_the_bytes(messages: Seq<UpwardMessage>)
    ensures
        contents(messages).len() == messages.len(),
        forall|i: int| 0 <= i < messages.len() ==> #[trigger] contents(messages)[i] == messages[i]@,
{
}

/// What a round reports of the messages that it handled is of which para each was, and its bytes.
pub proof fn law_report_of_a_round(handled: Seq<HandledMessage>)
    ensures
        handled_contents(handled).len() == handled.len(),
        forall|i: int|
            0 <= i < handled.len() ==> #[trigger] handled_contents(handled)[i] == (
                handled[i].para,
                handled[i].message@,
            ),
{
}

/// A para without an entry has an empty queue, of no messages and no bytes.
pub proof fn law_missing_entries_stand_for_nothing<BlockNumber>(
    state: RouterState<BlockNumber>,
    para: ParaId,
)
    ensures
        state.relay_dispatch_queues.contains_key(para) ==> state.queue(para)
            == state.relay_dispatch_queues[para],
        !state.relay_dispatch_queues.contains_key(para) ==> state.queue(para).len() == 0,
        queue_of(state.relay_dispatch_queues, para) == state.queue(para),
        state.relay_dispatch_queue_size.contains_key(para) ==> (
            state.count(para),
            state.size(para),
        ) == (
            state.relay_dispatch_queue_size[para].0 as nat,
            state.relay_dispatch_queue_size[para].1 as nat,
        ),
        !state.relay_dispatch_queue_size.contains_key(para) ==> state.count(para) == 0
            && state.size(para) == 0,
        size_of(state.relay_dispatch_queue_size, para).0 == state.count(para),
        size_of(state.relay_dispatch_queue_size, para).1 == state.size(para),
{
}

/// Taking the first message from a queue leaves the others, in their order.
pub proof fn law_rest_of_a_queue(message: Seq<u8>, queue: Seq<Seq<u8>>)
    ensures
        rest_of(seq![message] + queue) == queue,
        rest_of(Seq::<Seq<u8>>::empty()).len() == 0,
{
    assert((seq![message] + queue).drop_first() =~= queue);
}

/// The messages of a para among those that were handled are told one by one.
pub proof fn law_messages_of_a_para(
    handled: Seq<(ParaId, Seq<u8>)>,
    message: Seq<u8>,
    para: ParaId,
    other: ParaId,
)
    requires
        other != para,
    ensures
        handled_of(Seq::empty(), para).len() == 0,
        handled_of(handled.push((para, message)), para) == handled_of(handled, para).push(message),
        handled_of(handled.push((other, message)), para) == handled_of(handled, para),
{
    assert(handled.push((para, message)).drop_last() =~= handled);
    assert(handled.push((other, message)).drop_last() =~= handled);
}

/// What messages cost is added up one by one.
pub proof fn law_costs_add_up(
    handled: Seq<(ParaId, Seq<u8>)>,
    message: Seq<u8>,
    para: ParaId,
    cost: spec_fn(Seq<u8>) -> nat,
)
    ensures
        total_cost(Seq::empty(), cost) == 0,
        total_cost(handled.push((para, message)), cost) == total_cost(handled, cost) + cost(message),
{
    assert(handled.push((para, message)).drop_last() =~= handled);
}

/// A list ascends when of any two of its paras the later has the greater id.
pub proof fn law_ascending_lists(list: Seq<ParaId>)
    ensures
        ascending(list) <==> (forall|i: int, j: int|
            0 <= i < j < list.len() ==> (#[trigger] list[i]).0 < (#[trigger] list[j]).0),
{
}

/// Of the storage no more is asked at any time than that both lists ascend.
pub proof fn law_well_formed_storage<BlockNumber>(state: RouterState<BlockNumber>)
    ensures
        state.wf() <==> ascending(state.outgoing_paras) && ascending(state.needs_dispatch),
{
}

/// The storage is consistent when both lists ascend, a para is listed, has a queue and has a size
/// or none of the three, no queue is empty, every size is the count and the bytes of the queue, and
/// the next round starts with a listed para, if with any in particular.
pub proof fn law_consistent_storage<BlockNumber>(state: RouterState<BlockNumber>)
    ensures
        consistent(state) <==> {
            &&& ascending(state.outgoing_paras)
            &&& ascending(state.needs_dispatch)
            &&& forall|p: ParaId| #[trigger]
                state.needs_dispatch.contains(p) <==> state.relay_dispatch_queues.contains_key(p)
            &&& forall|p: ParaId| #[trigger]
                state.relay_dispatch_queue_size.contains_key(p)
                    <==> state.relay_dispatch_queues.contains_key(p)
            &&& forall|p: ParaId| #[trigger]
                state.relay_dispatch_queues.contains_key(p) ==> {
                    let queue = state.relay_dispatch_queues[p];
                    &&& queue.len() > 0
                    &&& queue.len() == state.relay_dispatch_queue_size[p].0
                    &&& queue.flatten().len() == state.relay_dispatch_queue_size[p].1
                }
            &&& forall|p: ParaId|
                state.next_dispatch_round_start_with == Some(p)
                    ==> #[trigger] state.needs_dispatch.contains(p)
        },
{
    assert forall|p: ParaId| #[trigger] payload_size(state.queue(p)) == state.queue(
        p,
    ).flatten().len() by {
        lemma_size_is_flat(state.queue(p));
    }
    let raw = {
        &&& ascending(state.outgoing_paras)
        &&& ascending(state.needs_dispatch)
        &&& forall|p: ParaId| #[trigger]
            state.needs_dispatch.contains(p) <==> state.relay_dispatch_queues.contains_key(p)
        &&& forall|p: ParaId| #[trigger]
            state.relay_dispatch_queue_size.contains_key(p)
                <==> state.relay_dispatch_queues.contains_key(p)
        &&& forall|p: ParaId| #[trigger]
            state.relay_dispatch_queues.contains_key(p) ==> {
                let queue = state.relay_dispatch_queues[p];
                &&& queue.len() > 0
                &&& queue.len() == state.relay_dispatch_queue_size[p].0
                &&& queue.flatten().len() == state.relay_dispatch_queue_size[p].1
            }
        &&& forall|p: ParaId|
            state.next_dispatch_round_start_with == Some(p)
                ==> #[trigger] state.needs_dispatch.contains(p)
    };
    if consistent(state) {
        assert forall|p: ParaId| #[trigger]
            state.relay_dispatch_queue_size.contains_key(p)
                <==> state.relay_dispatch_queues.contains_key(p) by {
            assert(state.relay_dispatch_queue_size.dom().contains(p)
                == state.relay_dispatch_queues.dom().contains(p));
        }
        assert forall|p: ParaId| #[trigger] state.relay_dispatch_queues.contains_key(p) implies {
            let queue = state.relay_dispatch_queues[p];
            &&& queue.len() > 0
            &&& queue.len() == state.relay_dispatch_queue_size[p].0
            &&& queue.flatten().len() == state.relay_dispatch_queue_size[p].1
        } by {
            assert(state.queue(p).len() == state.count(p));
            assert(payload_size(state.queue(p)) == state.size(p));
            assert(state.relay_dispatch_queue_size.contains_key(p));
        }
    }
    if raw {
        assert(state.relay_dispatch_queue_size.dom() =~= state.relay_dispatch_queues.dom());
        assert forall|p: ParaId| (#[trigger] state.queue(p)).len() == state.count(p)
            && payload_size(state.queue(p)) == state.size(p) by {
            if state.relay_dispatch_queues.contains_key(p) {
                assert(payload_size(state.queue(p)) == state.queue(p).flatten().len());
            }
            assert(state.relay_dispatch_queue_size.contains_key(p)
                <==> state.relay_dispatch_queues.contains_key(p));
        }
    }
}

/// Putting a para into an ascending list and taking one out change nothing about any other para in
/// it. What is put in is in the list once, what is taken out is not in it.
pub proof fn law_putting_in_and_taking_out(list: Seq<ParaId>, para: ParaId, p: ParaId)
    requires
        ascending(list),
    ensures
        ascending(with(list, para)),
        ascending(without(list, para)),
        with(list, para).contains(p) <==> p == para || list.contains(p),
        without(list, para).contains(p) <==> p != para && list.contains(p),
{
    lemma_with(list, para);
    lemma_filter_ascending(list, other_than(para));
    assert(without(list, para).contains(p) <==> list.contains(p) && other_than(para)(p));
}

/// Filtering out some paras leaves the others, in their order.
pub proof fn law_taking_out_several(list: Seq<ParaId>, paras: Seq<ParaId>, p: ParaId)
    requires
        ascending(list),
    ensures
        ascending(list.filter(none_of(paras))),
        list.filter(none_of(paras)).contains(p) <==> list.contains(p) && !paras.contains(p),
{
    lemma_filter_ascending(list, none_of(paras));
    assert(list.filter(none_of(paras)).contains(p) <==> list.contains(p) && none_of(paras)(p));
}

/// A round starts at the position of the para that it is given, if that is listed, and at the front
/// otherwise.
pub proof fn law_start_position(pending: Seq<ParaId>, start_with: Option<ParaId>)
    ensures
        pending.len() > 0 ==> start_position(pending, start_with) < pending.len(),
        start_with is Some && pending.contains(start_with->0) ==> pending[start_position(
            pending,
            start_with,
        ) as int] == start_with->0,
        !(start_with is Some && pending.contains(start_with->0)) ==> start_position(
            pending,
            start_with,
        ) == 0,
        pending.len() > 0 ==> first_in_line(pending, start_with) == pending[start_position(
            pending,
            start_with,
        ) as int],
{
    if let Some(p) = start_with {
        if pending.contains(p) {
            let i = pending.index_of(p);
            assert(0 <= i < pending.len() && pending[i] == p);
        }
    }
}

/// When a para is taken out of an ascending list, the position that is gone on with is that of the
/// para behind it, or of the first one if it was the last.
pub proof fn law_position_after_removal(list: Seq<ParaId>, i: int)
    requires
        ascending(list),
        0 <= i < list.len(),
    ensures
        ({
            let left = without(list, list[i]);
            let next = position_after_removal(left, i as nat);
            &&& left.len() == list.len() - 1
            &&& list.len() == 1 ==> next == 0
            &&& i + 1 < list.len() ==> next < left.len() && left[next as int] == list[i + 1]
            &&& 0 < i && i + 1 == list.len() ==> next < left.len() && left[next as int] == list[0]
        }),
{
    let left = without(list, list[i]);
    lemma_without_at(list, i);
    assert(left == list.remove(i));
    if i + 1 < list.len() {
        lemma_small_mod(i as nat, left.len());
        assert(left[i] == list[i + 1]);
    } else if 0 < i {
        lemma_mod_self_0(left.len() as int);
        assert(i == left.len());
        assert(left[0] == list[0]);
    }
}

/// The order in which paras come round: by id, with the lowest behind the highest.
pub proof fn law_coming_round(a: ParaId, b: ParaId, c: ParaId)
    ensures
        a.0 < b.0 ==> (between(a, c, b) <==> a.0 < c.0 < b.0),
        b.0 <= a.0 ==> (between(a, c, b) <==> a.0 < c.0 || c.0 < b.0),
        a.0 <= b.0 ==> (before(a, c, b) <==> a.0 <= c.0 < b.0),
        b.0 < a.0 ==> (before(a, c, b) <==> a.0 <= c.0 || c.0 < b.0),
{
}

/// A number that 32 bits can hold is kept, and a greater one becomes the greatest that they can.
pub proof fn law_capped(n: nat)
    ensures
        n <= u32::MAX ==> capped(n) == n,
        n > u32::MAX ==> capped(n) == u32::MAX,
{
}

/// The weight of database accesses is that of the reads and the writes together, or the greatest
/// weight there is if that is less.
pub proof fn law_weight_of_accesses(db_weight: RuntimeDbWeight, reads: nat, writes: nat)
    ensures
        db_weight.read * reads + db_weight.write * writes <= u64::MAX ==> db_weight.weight_of(
            reads,
            writes,
        ) == db_weight.read * reads + db_weight.write * writes,
        db_weight.read * reads + db_weight.write * writes > u64::MAX ==> db_weight.weight_of(
            reads,
            writes,
        ) == u64::MAX,
{
    assert(db_weight.read * reads + db_weight.write * writes >= 0) by (nonlinear_arith);
}

/// A message that was executed uses up the weight that its execution reports, whether it went well
/// or not. One that was not executed uses up none.
pub proof fn law_weight_used_up(weight: Weight, error: DecodeError)
    ensures
        DispatchOutcome::Executed(Ok(weight)).used_up() == weight,
        DispatchOutcome::Executed(Err(weight)).used_up() == weight,
        DispatchOutcome::TooHeavy(weight).used_up() == 0,
        DispatchOutcome::Undecodable(error).used_up() == 0,
{
}

/// A message does not decode, whatever the critical weight is: it has no first byte, or one that
/// selects no variant.
pub proof fn law_no_message_decodes(message: Seq<u8>, rest: Seq<u8>, first: u8, critical_weight: Weight)
    ensures
        outcome_of(Seq::empty(), critical_weight) == DispatchOutcome::Undecodable(
            DecodeError::MissingVariant,
        ),
        outcome_of(seq![first] + rest, critical_weight) == DispatchOutcome::Undecodable(
            DecodeError::UnknownVariant(first),
        ),
        outcome_of(message, critical_weight) is Undecodable,
{
    assert((seq![first] + rest)[0] == first);
}

/// A message costs a round what it uses up.
pub proof fn law_cost_of_a_message(
    outcomes: spec_fn(Seq<u8>) -> DispatchOutcome,
    config: HostConfiguration,
    message: Seq<u8>,
)
    ensures
        cost_of(outcomes)(message) == outcomes(message).used_up(),
        cost_under(config)(message) == outcome_of(
            message,
            config.dispatchable_upward_message_critical_weight,
        ).used_up(),
{
}

/// The state of a router is what its fields hold: every list, every table, and every queue in its
/// order.
pub proof fn law_state_shows_the_fields<T: Trait>(router: Module<T>, para: ParaId)
    ensures
        router@.outgoing_paras == router.outgoing_paras@,
        router@.needs_dispatch == router.needs_dispatch@,
        router@.next_dispatch_round_start_with == router.next_dispatch_round_start_with,
        router@.relay_dispatch_queue_size == router.relay_dispatch_queue_size@,
        router@.downward_message_queue_heads == router.downward_message_queue_heads@,
        router@.downward_message_queues.contains_key(para)
            == router.downward_message_queues@.contains_key(para),
        router@.downward_message_queues.contains_key(para) ==> router@.downward_message_queues[para]
            == router.downward_message_queues@[para]@,
        router@.relay_dispatch_queues.contains_key(para)
            == router.relay_dispatch_queues@.contains_key(para),
        router@.relay_dispatch_queues.contains_key(para) ==> {
            let messages = router.relay_dispatch_queues@[para]@;
            &&& router@.relay_dispatch_queues[para].len() == messages.len()
            &&& forall|i: int|
                0 <= i < messages.len() ==> #[trigger] router@.relay_dispatch_queues[para][i]
                    == messages[i]@
        },
{
}

/// A new router has stored nothing.
pub proof fn law_nothing_stored<BlockNumber>(para: ParaId)
    ensures
        ({
            let state = RouterState::<BlockNumber>::empty();
            &&& state.outgoing_paras.len() == 0
            &&& state.needs_dispatch.len() == 0
            &&& state.next_dispatch_round_start_with is None
            &&& !state.downward_message_queues.contains_key(para)
            &&& !state.downward_message_queue_heads.contains_key(para)
            &&& !state.relay_dispatch_queues.contains_key(para)
            &&& !state.relay_dispatch_queue_size.contains_key(para)
        }),
{
}

} // verus!
