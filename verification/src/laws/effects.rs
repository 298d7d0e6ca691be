//! What each operation changes of the storage, and what it leaves as it was.
use vstd::prelude::*;

use crate::configuration::HostConfiguration;
use crate::laws::order::{
    before,
    between,
    first_in_line,
    law_first_turn,
    law_handled_messages_are_the_oldest_left,
    law_paras_take_turns,
    law_round_below_its_weight_is_complete,
    law_turns_and_the_list,
    law_where_the_next_round_starts,
};
use crate::laws::round::{handled_of, lemma_round_in_progress, total_cost};
use crate::laws::storage::{
    consistent,
    law_dispatching_is_fifo,
    law_dispatching_leaves_paras_without_a_turn_alone,
    lemma_total_cost_is_zero,
};
use crate::laws::terms::law_size_counts_the_bytes;
use crate::primitives::{lemma_payload_size_add, payload_size, ParaId};
use crate::router::dispatch::queue_of;
use crate::router::state::{cost_under, RouterState};
use crate::sorted::{
    ascending,
    lemma_filter_ascending,
    lemma_with,
    none_of,
    other_than,
    with,
    without,
};

verus! {

/// Scheduling a para for clean-up changes nothing but the list of outgoing paras: the messages that
/// wait, the table of their sizes, the paras listed for dispatching, the start of the next round and
/// the downward messages are what they were. The para joins the list and no other does.
pub proof fn law_scheduling_changes_one_list<BlockNumber>(
    state: RouterState<BlockNumber>,
    para: ParaId,
    p: ParaId,
)
    requires
        state.wf(),
    ensures
        ({
            let after = state.schedule_para_cleanup(para);
            &&& after.relay_dispatch_queues == state.relay_dispatch_queues
            &&& after.relay_dispatch_queue_size == state.relay_dispatch_queue_size
            &&& after.needs_dispatch == state.needs_dispatch
            &&& after.next_dispatch_round_start_with == state.next_dispatch_round_start_with
            &&& after.downward_message_queues == state.downward_message_queues
            &&& after.downward_message_queue_heads == state.downward_message_queue_heads
            &&& after.queue(p) == state.queue(p)
            &&& after.count(p) == state.count(p)
            &&& after.size(p) == state.size(p)
            &&& ascending(after.outgoing_paras)
            &&& after.outgoing_paras.contains(p) <==> p == para || state.outgoing_paras.contains(p)
        }),
{
    lemma_with(state.outgoing_paras, para);
    assert(with(state.outgoing_paras, para).contains(p) <==> p == para
        || state.outgoing_paras.contains(p));
}

/// Messages are accepted exactly if they keep three limits: a candidate sends no more than so many,
/// whatever is queued, and with what the table of sizes has for the para, neither the count nor the
/// bytes get above what a queue may hold.
pub proof fn law_acceptance_criteria<BlockNumber>(
    state: RouterState<BlockNumber>,
    config: HostConfiguration,
    para: ParaId,
    messages: Seq<Seq<u8>>,
)
    ensures
        state.accepts(config, para, messages) <==> {
            &&& messages.len() <= config.max_upward_message_num_per_candidate
            &&& state.count(para) + messages.len() <= config.max_upward_queue_count
            &&& state.size(para) + messages.flatten().len() <= config.max_upward_queue_size
        },
        state.accepts(config, para, messages) ==> messages.len()
            <= config.max_upward_message_num_per_candidate,
{
    law_size_counts_the_bytes(messages, Seq::empty());
}

/// Messages are accepted exactly if they keep three limits: there are not too many of them, and the
/// queue with them appended holds neither too many messages nor too many bytes.
pub proof fn law_accepted_if_the_queue_stays_within_its_limits<BlockNumber>(
    state: RouterState<BlockNumber>,
    config: HostConfiguration,
    para: ParaId,
    messages: Seq<Seq<u8>>,
)
    requires
        consistent(state),
    ensures
        state.accepts(config, para, messages) <==> {
            let queue = state.queue(para) + messages;
            &&& messages.len() <= config.max_upward_message_num_per_candidate
            &&& queue.len() <= config.max_upward_queue_count
            &&& queue.flatten().len() <= config.max_upward_queue_size
        },
{
    let queue = state.queue(para) + messages;
    law_size_counts_the_bytes(queue, Seq::empty());
    lemma_payload_size_add(state.queue(para), messages);
    assert(state.queue(para).len() == state.count(para));
    assert(payload_size(state.queue(para)) == state.size(para));
}

/// Of messages that are accepted any part is accepted, and so are they under any limits that are not
/// lower.
pub proof fn law_acceptance_is_monotone<BlockNumber>(
    state: RouterState<BlockNumber>,
    config: HostConfiguration,
    wider: HostConfiguration,
    para: ParaId,
    first: Seq<Seq<u8>>,
    second: Seq<Seq<u8>>,
)
    requires
        state.accepts(config, para, first + second),
        config.max_upward_message_num_per_candidate <= wider.max_upward_message_num_per_candidate,
        config.max_upward_queue_count <= wider.max_upward_queue_count,
        config.max_upward_queue_size <= wider.max_upward_queue_size,
    ensures
        state.accepts(wider, para, first + second),
        state.accepts(config, para, first),
        state.accepts(config, para, second),
{
    lemma_payload_size_add(first, second);
}

/// Messages can be accounted for exactly if neither the count nor the number of bytes leaves the
/// range of a 32-bit number.
pub proof fn law_what_can_be_accounted_for<BlockNumber>(
    state: RouterState<BlockNumber>,
    para: ParaId,
    messages: Seq<Seq<u8>>,
)
    ensures
        state.can_account(para, messages) <==> {
            &&& state.count(para) + messages.len() <= u32::MAX
            &&& state.size(para) + messages.flatten().len() <= u32::MAX
        },
{
    law_size_counts_the_bytes(messages, Seq::empty());
}

/// Enacting messages appends them to the queue of their para, raises its count by as many as they
/// are and its size by their bytes, and lists the para. Nothing else changes, neither for another
/// para nor about the outgoing paras, the start of the next round or the downward messages.
pub proof fn law_enacting_changes_one_queue<BlockNumber>(
    state: RouterState<BlockNumber>,
    para: ParaId,
    messages: Seq<Seq<u8>>,
    p: ParaId,
)
    requires
        state.wf(),
        messages.len() > 0,
        state.count(para) + messages.len() <= u32::MAX,
        state.size(para) + messages.flatten().len() <= u32::MAX,
    ensures
        ({
            let after = state.enact(para, messages);
            &&& after.relay_dispatch_queues == state.relay_dispatch_queues.insert(
                para,
                state.queue(para) + messages,
            )
            &&& after.queue(para) == state.queue(para) + messages
            &&& after.relay_dispatch_queue_size.contains_key(para)
            &&& after.count(para) == state.count(para) + messages.len()
            &&& after.size(para) == state.size(para) + messages.flatten().len()
            &&& after.relay_dispatch_queue_size.remove(para)
                == state.relay_dispatch_queue_size.remove(para)
            &&& ascending(after.needs_dispatch)
            &&& after.needs_dispatch.contains(p) <==> p == para || state.needs_dispatch.contains(p)
            &&& after.outgoing_paras == state.outgoing_paras
            &&& after.next_dispatch_round_start_with == state.next_dispatch_round_start_with
            &&& after.downward_message_queues == state.downward_message_queues
            &&& after.downward_message_queue_heads == state.downward_message_queue_heads
        }),
{
    let after = state.enact(para, messages);
    law_size_counts_the_bytes(messages, Seq::empty());
    lemma_with(state.needs_dispatch, para);
    assert(with(state.needs_dispatch, para).contains(p) <==> p == para
        || state.needs_dispatch.contains(p));
    assert(after.relay_dispatch_queue_size.remove(para)
        =~= state.relay_dispatch_queue_size.remove(para));
}

/// Enacting one message raises the count of its para by one and the size by the length of the
/// message.
pub proof fn law_enacting_one_message<BlockNumber>(
    state: RouterState<BlockNumber>,
    para: ParaId,
    message: Seq<u8>,
)
    requires
        state.count(para) + 1 <= u32::MAX,
        state.size(para) + message.len() <= u32::MAX,
    ensures
        state.enact(para, seq![message]).count(para) == state.count(para) + 1,
        state.enact(para, seq![message]).size(para) == state.size(para) + message.len(),
        state.enact(para, seq![message]).queue(para) == state.queue(para).push(message),
{
    law_size_counts_the_bytes(Seq::empty(), message);
    assert(state.queue(para) + seq![message] =~= state.queue(para).push(message));
}

/// Enacting no message changes nothing.
pub proof fn law_enacting_nothing<BlockNumber>(
    state: RouterState<BlockNumber>,
    para: ParaId,
    messages: Seq<Seq<u8>>,
)
    requires
        messages.len() == 0,
    ensures
        state.enact(para, messages) == state,
{
}

/// Forgetting the upward messages of a para takes out its queue and its size and takes it off the
/// list for dispatching, and nothing else: entries of other paras, the outgoing paras and the
/// downward messages are what they were. The start of the next round is reset if it was this para.
pub proof fn law_cleanup_changes_one_para<BlockNumber>(
    state: RouterState<BlockNumber>,
    para: ParaId,
    p: ParaId,
)
    requires
        state.wf(),
    ensures
        ({
            let after = state.cleanup_ump(para);
            &&& after.relay_dispatch_queues == state.relay_dispatch_queues.remove(para)
            &&& after.relay_dispatch_queue_size == state.relay_dispatch_queue_size.remove(para)
            &&& ascending(after.needs_dispatch)
            &&& after.needs_dispatch.contains(p) <==> p != para && state.needs_dispatch.contains(p)
            &&& after.next_dispatch_round_start_with == Some(p) <==> p != para
                && state.next_dispatch_round_start_with == Some(p)
            &&& after.outgoing_paras == state.outgoing_paras
            &&& after.downward_message_queues == state.downward_message_queues
            &&& after.downward_message_queue_heads == state.downward_message_queue_heads
        }),
{
    lemma_filter_ascending(state.needs_dispatch, other_than(para));
    assert(without(state.needs_dispatch, para).contains(p) <==> state.needs_dispatch.contains(p)
        && other_than(para)(p));
}

/// A new session leaves of every table the entries of those paras that were not outgoing, as they
/// were, and of the list for dispatching those paras. No para is outgoing any longer.
pub proof fn law_new_session_keeps_the_other_paras<BlockNumber>(
    state: RouterState<BlockNumber>,
    p: ParaId,
)
    requires
        state.wf(),
    ensures
        ({
            let after = state.new_session();
            let stays = !state.outgoing_paras.contains(p);
            &&& after.outgoing_paras.len() == 0
            &&& after.relay_dispatch_queues.contains_key(p) <==> stays
                && state.relay_dispatch_queues.contains_key(p)
            &&& after.relay_dispatch_queues.contains_key(p) ==> after.relay_dispatch_queues[p]
                == state.relay_dispatch_queues[p]
            &&& after.relay_dispatch_queue_size.contains_key(p) <==> stays
                && state.relay_dispatch_queue_size.contains_key(p)
            &&& after.relay_dispatch_queue_size.contains_key(p) ==> after.relay_dispatch_queue_size[p]
                == state.relay_dispatch_queue_size[p]
            &&& after.downward_message_queues.contains_key(p) <==> stays
                && state.downward_message_queues.contains_key(p)
            &&& after.downward_message_queues.contains_key(p) ==> after.downward_message_queues[p]
                == state.downward_message_queues[p]
            &&& after.downward_message_queue_heads.contains_key(p) <==> stays
                && state.downward_message_queue_heads.contains_key(p)
            &&& after.downward_message_queue_heads.contains_key(p)
                ==> after.downward_message_queue_heads[p] == state.downward_message_queue_heads[p]
            &&& ascending(after.needs_dispatch)
            &&& after.needs_dispatch.contains(p) <==> stays && state.needs_dispatch.contains(p)
            &&& after.next_dispatch_round_start_with == Some(p) <==> stays
                && state.next_dispatch_round_start_with == Some(p)
        }),
{
    lemma_filter_ascending(state.needs_dispatch, none_of(state.outgoing_paras));
    assert(state.new_session().needs_dispatch.contains(p) <==> state.needs_dispatch.contains(p)
        && none_of(state.outgoing_paras)(p));
}

/// A round of dispatching leaves the outgoing paras and the downward messages alone, and the list of
/// paras ascending.
pub proof fn law_dispatching_leaves_the_rest_alone<BlockNumber>(
    state: RouterState<BlockNumber>,
    config: HostConfiguration,
)
    requires
        state.wf(),
    ensures
        state.dispatch(config).outgoing_paras == state.outgoing_paras,
        state.dispatch(config).downward_message_queues == state.downward_message_queues,
        state.dispatch(config).downward_message_queue_heads == state.downward_message_queue_heads,
        ascending(state.dispatch(config).needs_dispatch),
{
    lemma_round_in_progress(
        state.needs_dispatch,
        state.next_dispatch_round_start_with,
        state.relay_dispatch_queues,
        config.preferred_dispatchable_upward_messages_step_weight as nat,
        cost_under(config),
    );
}

/// What a round of dispatching does to a para of which it handles messages: these are gone from the
/// front of its queue, the table of sizes has the count and the bytes of the others, as far as 32
/// bits can hold them, and if there are no others, nothing is left of it.
pub proof fn law_dispatching_takes_from_the_front<BlockNumber>(
    state: RouterState<BlockNumber>,
    config: HostConfiguration,
    p: ParaId,
)
    requires
        state.wf(),
        handled_of(state.finished_round(config).handled, p).len() > 0,
    ensures
        ({
            let after = state.dispatch(config);
            let done = handled_of(state.finished_round(config).handled, p).len();
            let left = state.queue(p).skip(done as int);
            &&& state.needs_dispatch.contains(p)
            &&& done <= state.queue(p).len()
            &&& handled_of(state.finished_round(config).handled, p) == state.queue(p).take(
                done as int,
            )
            &&& after.relay_dispatch_queues.contains_key(p) <==> left.len() > 0
            &&& after.relay_dispatch_queue_size.contains_key(p) <==> left.len() > 0
            &&& after.needs_dispatch.contains(p) <==> left.len() > 0
            &&& after.queue(p) == left
            &&& left.len() <= u32::MAX ==> after.count(p) == left.len()
            &&& left.len() > u32::MAX ==> after.count(p) == u32::MAX
            &&& left.flatten().len() <= u32::MAX ==> after.size(p) == left.flatten().len()
            &&& left.flatten().len() > u32::MAX ==> after.size(p) == u32::MAX
        }),
{
    let end = state.finished_round(config);
    let after = state.dispatch(config);
    let first = handled_of(end.handled, p);
    law_turns_and_the_list(
        state.needs_dispatch,
        state.next_dispatch_round_start_with,
        state.relay_dispatch_queues,
        config.preferred_dispatchable_upward_messages_step_weight as nat,
        cost_under(config),
        p,
    );
    law_dispatching_is_fifo(state, config, p);
    let left = state.queue(p).skip(first.len() as int);
    assert(first =~= state.queue(p).take(first.len() as int));
    assert(after.queue(p) =~= left);
    lemma_round_in_progress(
        state.needs_dispatch,
        state.next_dispatch_round_start_with,
        state.relay_dispatch_queues,
        config.preferred_dispatchable_upward_messages_step_weight as nat,
        cost_under(config),
    );
    assert(queue_of(state.relay_dispatch_queues, p) == first + queue_of(end.queues, p));
    assert(queue_of(end.queues, p) =~= left);
    law_size_counts_the_bytes(left, Seq::empty());
    if left.len() == 0 {
        assert(left =~= Seq::<Seq<u8>>::empty());
    }
}

/// A round of dispatching changes nothing for a para of which it handles no message, except that a
/// para that was listed without messages may be taken off the list, and its entries with it.
pub proof fn law_dispatching_leaves_other_paras_alone<BlockNumber>(
    state: RouterState<BlockNumber>,
    config: HostConfiguration,
    p: ParaId,
)
    requires
        state.wf(),
        handled_of(state.finished_round(config).handled, p).len() == 0,
    ensures
        ({
            let after = state.dispatch(config);
            let delisted = state.needs_dispatch.contains(p) && !after.needs_dispatch.contains(p);
            &&& after.queue(p) == state.queue(p)
            &&& after.needs_dispatch.contains(p) ==> state.needs_dispatch.contains(p)
            &&& delisted ==> {
                &&& state.queue(p).len() == 0
                &&& !after.relay_dispatch_queues.contains_key(p)
                &&& !after.relay_dispatch_queue_size.contains_key(p)
            }
            &&& !delisted ==> {
                &&& after.relay_dispatch_queues.contains_key(p)
                    == state.relay_dispatch_queues.contains_key(p)
                &&& after.relay_dispatch_queue_size.contains_key(p)
                    == state.relay_dispatch_queue_size.contains_key(p)
                &&& after.count(p) == state.count(p)
                &&& after.size(p) == state.size(p)
            }
        }),
{
    let end = state.finished_round(config);
    law_turns_and_the_list(
        state.needs_dispatch,
        state.next_dispatch_round_start_with,
        state.relay_dispatch_queues,
        config.preferred_dispatchable_upward_messages_step_weight as nat,
        cost_under(config),
        p,
    );
    law_dispatching_is_fifo(state, config, p);
    assert(handled_of(end.handled, p) + state.dispatch(config).queue(p) =~= state.dispatch(
        config,
    ).queue(p));
    lemma_round_in_progress(
        state.needs_dispatch,
        state.next_dispatch_round_start_with,
        state.relay_dispatch_queues,
        config.preferred_dispatchable_upward_messages_step_weight as nat,
        cost_under(config),
    );
    assert(queue_of(state.relay_dispatch_queues, p) == handled_of(end.handled, p) + queue_of(
        end.queues,
        p,
    ));
    if !end.taken.contains(p) {
        law_dispatching_leaves_paras_without_a_turn_alone(state, config, p);
    }
}

/// In a round of dispatching every message that is handled is the oldest one left of its para, and
/// of all paras that have messages left, its para is the one that comes next: behind that of the
/// message before it, going up by id and on from the lowest behind the highest.
pub proof fn law_dispatching_takes_turns<BlockNumber>(
    state: RouterState<BlockNumber>,
    config: HostConfiguration,
    i: int,
    p: ParaId,
)
    requires
        state.wf(),
        0 <= i < state.finished_round(config).handled.len(),
    ensures
        ({
            let handled = state.finished_round(config).handled;
            let to = handled[i].0;
            let done = handled_of(handled.take(i), to).len();
            let waits = state.needs_dispatch.contains(p) && handled_of(handled.take(i), p).len()
                < state.queue(p).len();
            &&& state.needs_dispatch.contains(to)
            &&& done < state.queue(to).len()
            &&& handled[i].1 == state.queue(to)[done as int]
            &&& waits && i == 0 ==> !before(
                first_in_line(state.needs_dispatch, state.next_dispatch_round_start_with),
                p,
                to,
            )
            &&& waits && i > 0 ==> !between(handled[i - 1].0, p, to)
        }),
{
    let preferred = config.preferred_dispatchable_upward_messages_step_weight as nat;
    let handled = state.finished_round(config).handled;
    law_handled_messages_are_the_oldest_left(
        state.needs_dispatch,
        state.next_dispatch_round_start_with,
        state.relay_dispatch_queues,
        preferred,
        cost_under(config),
        i,
    );
    if state.needs_dispatch.contains(p) && handled_of(handled.take(i), p).len() < state.queue(
        p,
    ).len() {
        if i == 0 {
            assert(handled.take(0) =~= Seq::<(ParaId, Seq<u8>)>::empty());
            law_first_turn(
                state.needs_dispatch,
                state.next_dispatch_round_start_with,
                state.relay_dispatch_queues,
                preferred,
                cost_under(config),
                p,
            );
        } else {
            law_paras_take_turns(
                state.needs_dispatch,
                state.next_dispatch_round_start_with,
                state.relay_dispatch_queues,
                preferred,
                cost_under(config),
                i,
                p,
            );
        }
    }
}

/// As no message uses up weight, a round with a preferred weight above zero handles every message of
/// every listed para, and one with a preferred weight of zero handles none.
pub proof fn law_how_much_a_round_handles<BlockNumber>(
    state: RouterState<BlockNumber>,
    config: HostConfiguration,
    p: ParaId,
)
    requires
        state.wf(),
    ensures
        config.preferred_dispatchable_upward_messages_step_weight > 0
            && state.needs_dispatch.contains(p) ==> handled_of(
            state.finished_round(config).handled,
            p,
        ) == state.queue(p),
        config.preferred_dispatchable_upward_messages_step_weight == 0 ==> state.finished_round(
            config,
        ).handled.len() == 0,
        !state.needs_dispatch.contains(p) ==> handled_of(
            state.finished_round(config).handled,
            p,
        ).len() == 0,
{
    let preferred = config.preferred_dispatchable_upward_messages_step_weight as nat;
    let handled = state.finished_round(config).handled;
    lemma_total_cost_is_zero(handled, config);
    if preferred > 0 && state.needs_dispatch.contains(p) {
        law_round_below_its_weight_is_complete(
            state.needs_dispatch,
            state.next_dispatch_round_start_with,
            state.relay_dispatch_queues,
            preferred,
            cost_under(config),
            p,
        );
    }
    lemma_round_in_progress(
        state.needs_dispatch,
        state.next_dispatch_round_start_with,
        state.relay_dispatch_queues,
        preferred,
        cost_under(config),
    );
    if preferred == 0 && handled.len() > 0 {
        assert(total_cost(handled.take(0), cost_under(config)) < preferred);
    }
    law_turns_and_the_list(
        state.needs_dispatch,
        state.next_dispatch_round_start_with,
        state.relay_dispatch_queues,
        preferred,
        cost_under(config),
        p,
    );
}

/// A round that leaves paras listed has the next one start with one of them: with the one behind the
/// one that would have had the next turn, which is passed over. A round that leaves none resets the
/// start.
pub proof fn law_dispatching_sets_the_next_start<BlockNumber>(
    state: RouterState<BlockNumber>,
    config: HostConfiguration,
)
    requires
        state.wf(),
    ensures
        ({
            let listed = state.dispatch(config).needs_dispatch;
            let handled = state.finished_round(config).handled;
            match state.dispatch(config).next_dispatch_round_start_with {
                None => listed.len() == 0,
                Some(start) => {
                    &&& listed.contains(start)
                    &&& exists|skipped: ParaId|
                        {
                            &&& #[trigger] listed.contains(skipped)
                            &&& forall|c: ParaId| #[trigger]
                                listed.contains(c) ==> !between(skipped, c, start) && if handled.len()
                                    == 0 {
                                    !before(
                                        first_in_line(
                                            state.needs_dispatch,
                                            state.next_dispatch_round_start_with,
                                        ),
                                        c,
                                        skipped,
                                    )
                                } else {
                                    !between(handled.last().0, c, skipped)
                                }
                        }
                },
            }
        }),
{
    law_where_the_next_round_starts(
        state.needs_dispatch,
        state.next_dispatch_round_start_with,
        state.relay_dispatch_queues,
        config.preferred_dispatchable_upward_messages_step_weight as nat,
        cost_under(config),
    );
    let listed = state.dispatch(config).needs_dispatch;
    let handled = state.finished_round(config).handled;
    let first = first_in_line(state.needs_dispatch, state.next_dispatch_round_start_with);
    assert(listed == state.finished_round(config).pending);
    if let Some(start) = state.dispatch(config).next_dispatch_round_start_with {
        let skipped = choose|skipped: ParaId|
            {
                &&& #[trigger] listed.contains(skipped)
                &&& forall|c: ParaId| #[trigger]
                    listed.contains(c) ==> !between(skipped, c, start) && if handled.len() == 0 {
                        !before(first, c, skipped)
                    } else {
                        !between(handled.last().0, c, skipped)
                    }
            };
        assert(listed.contains(skipped));
    }
}

} // verus!
