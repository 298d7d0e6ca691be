//! What the operations keep of the storage of the router, and how they relate to each other.
use vstd::arithmetic::div_mod::lemma_mod_bound;
use vstd::prelude::*;

use crate::configuration::HostConfiguration;
use crate::laws::round::{
    handled_of,
    law_round_delists_drained_paras,
    law_round_goes_on_until_it_is_over,
    law_round_is_fifo,
    law_round_starts_with_the_given_para,
    lemma_round_in_progress,
    total_cost,
    waiting,
};
use crate::primitives::{lemma_payload_size_add, payload_size, ParaId};
use crate::router::dispatch::{queue_of, start_position};
use crate::router::state::{cost_under, lemma_settled_queue, RouterState};
use crate::sorted::{
    lemma_filter_ascending,
    lemma_with,
    lemma_with_commutes,
    lemma_without_absent,
    none_of,
    other_than,
    with,
};
use crate::weights::Weight;
use crate::xcm::message_weight;

verus! {

/// The table of sizes says of every queue how many messages it holds and what their size is, and
/// it has entries for exactly the paras that have a queue.
pub open spec fn sizes_match<BlockNumber>(state: RouterState<BlockNumber>) -> bool {
    &&& state.relay_dispatch_queue_size.dom() == state.relay_dispatch_queues.dom()
    &&& forall|p: ParaId| (#[trigger] state.queue(p)).len() == state.count(p)
    &&& forall|p: ParaId| payload_size(#[trigger] state.queue(p)) == state.size(p)
}

/// The paras that are listed for dispatching are exactly those that have a queue, and no queue is
/// empty.
pub open spec fn listing_is_exact<BlockNumber>(state: RouterState<BlockNumber>) -> bool {
    &&& forall|p: ParaId| #[trigger]
        state.needs_dispatch.contains(p) <==> state.relay_dispatch_queues.contains_key(p)
    &&& forall|p: ParaId| #[trigger]
        state.relay_dispatch_queues.contains_key(p) ==> state.relay_dispatch_queues[p].len() > 0
}

/// The para that the next round starts with, if there is one, is listed for dispatching.
pub open spec fn start_is_listed<BlockNumber>(state: RouterState<BlockNumber>) -> bool {
    match state.next_dispatch_round_start_with {
        Some(p) => state.needs_dispatch.contains(p),
        None => true,
    }
}

/// What holds of the storage at all times.
pub open spec fn consistent<BlockNumber>(state: RouterState<BlockNumber>) -> bool {
    &&& state.wf()
    &&& sizes_match(state)
    &&& listing_is_exact(state)
    &&& start_is_listed(state)
}

/// The storage of a new router is consistent.
pub proof fn law_new_router_is_consistent<BlockNumber>()
    ensures
        consistent(RouterState::<BlockNumber>::empty()),
{
}

/// Scheduling a para for clean-up keeps what holds of the storage.
pub proof fn law_scheduling_keeps_consistency<BlockNumber>(
    state: RouterState<BlockNumber>,
    para: ParaId,
)
    requires
        consistent(state),
    ensures
        consistent(state.schedule_para_cleanup(para)),
{
    lemma_with(state.outgoing_paras, para);
    let after = state.schedule_para_cleanup(para);
    assert forall|p: ParaId| #[trigger] after.queue(p) == state.queue(p) by {}
}

/// Enacting messages keeps what holds of the storage.
pub proof fn law_enacting_keeps_consistency<BlockNumber>(
    state: RouterState<BlockNumber>,
    para: ParaId,
    messages: Seq<Seq<u8>>,
)
    requires
        consistent(state),
        messages.len() > 0 ==> state.can_account(para, messages),
    ensures
        consistent(state.enact(para, messages)),
{
    if messages.len() > 0 {
        let after = state.enact(para, messages);
        lemma_with(state.needs_dispatch, para);
        lemma_payload_size_add(state.queue(para), messages);
        assert(state.queue(para).len() == state.count(para));
        assert(payload_size(state.queue(para)) == state.size(para));
        assert(after.relay_dispatch_queue_size.dom() =~= after.relay_dispatch_queues.dom());
        assert forall|p: ParaId| (#[trigger] after.queue(p)).len() == after.count(p) && payload_size(
            after.queue(p),
        ) == after.size(p) by {
            if p != para {
                assert(after.queue(p) == state.queue(p));
            }
        }
    }
}

/// Across rounds the messages of a para are handled in the order in which they came: those that a
/// round handles of it, followed by those that then wait, are those that waited before.
pub proof fn law_dispatching_is_fifo<BlockNumber>(
    state: RouterState<BlockNumber>,
    config: HostConfiguration,
    para: ParaId,
)
    requires
        state.wf(),
    ensures
        state.queue(para) == handled_of(state.finished_round(config).handled, para) + state.dispatch(
            config,
        ).queue(para),
{
    let end = state.finished_round(config);
    law_round_is_fifo(
        state.needs_dispatch,
        state.next_dispatch_round_start_with,
        state.relay_dispatch_queues,
        config.preferred_dispatchable_upward_messages_step_weight as nat,
        cost_under(config),
        para,
    );
    lemma_settled_queue(
        RouterState {
            relay_dispatch_queues: end.queues,
            needs_dispatch: end.pending,
            next_dispatch_round_start_with: end.next_start(),
            ..state
        },
        end.taken,
        para,
    );
}

/// Whatever two rounds in a row handle of a para, the second takes up where the first stopped: no
/// message is handled twice and none is left out.
pub proof fn law_two_rounds_are_fifo<BlockNumber>(
    state: RouterState<BlockNumber>,
    config: HostConfiguration,
    next_config: HostConfiguration,
    para: ParaId,
)
    requires
        consistent(state),
    ensures
        ({
            let between = state.dispatch(config);
            state.queue(para) == (handled_of(state.finished_round(config).handled, para)
                + handled_of(between.finished_round(next_config).handled, para)) + between.dispatch(
                next_config,
            ).queue(para)
        }),
{
    let between = state.dispatch(config);
    law_dispatching_keeps_consistency(state, config);
    law_dispatching_is_fifo(state, config, para);
    law_dispatching_is_fifo(between, next_config, para);
    let first = handled_of(state.finished_round(config).handled, para);
    let second = handled_of(between.finished_round(next_config).handled, para);
    let rest = between.dispatch(next_config).queue(para);
    assert(first + (second + rest) =~= (first + second) + rest);
}

/// A round changes nothing for paras that have no turn in it.
pub proof fn law_dispatching_leaves_paras_without_a_turn_alone<BlockNumber>(
    state: RouterState<BlockNumber>,
    config: HostConfiguration,
    para: ParaId,
)
    requires
        state.wf(),
        !state.finished_round(config).taken.contains(para),
    ensures
        ({
            let after = state.dispatch(config);
            &&& after.relay_dispatch_queues.contains_key(para)
                == state.relay_dispatch_queues.contains_key(para)
            &&& after.queue(para) == state.queue(para)
            &&& after.relay_dispatch_queue_size.contains_key(para)
                == state.relay_dispatch_queue_size.contains_key(para)
            &&& after.count(para) == state.count(para)
            &&& after.size(para) == state.size(para)
            &&& after.needs_dispatch.contains(para) == state.needs_dispatch.contains(para)
        }),
{
    lemma_round_in_progress(
        state.needs_dispatch,
        state.next_dispatch_round_start_with,
        state.relay_dispatch_queues,
        config.preferred_dispatchable_upward_messages_step_weight as nat,
        cost_under(config),
    );
}

/// Only paras that are listed have a turn.
pub proof fn law_only_listed_paras_have_turns<BlockNumber>(
    state: RouterState<BlockNumber>,
    config: HostConfiguration,
    para: ParaId,
)
    requires
        state.wf(),
        state.finished_round(config).taken.contains(para),
    ensures
        state.needs_dispatch.contains(para),
{
    lemma_round_in_progress(
        state.needs_dispatch,
        state.next_dispatch_round_start_with,
        state.relay_dispatch_queues,
        config.preferred_dispatchable_upward_messages_step_weight as nat,
        cost_under(config),
    );
}

/// With a preferred weight of zero a round changes nothing but the para that the next one starts
/// with, which moves on by one.
pub proof fn law_no_weight_only_moves_the_start<BlockNumber>(
    state: RouterState<BlockNumber>,
    config: HostConfiguration,
)
    requires
        config.preferred_dispatchable_upward_messages_step_weight == 0,
    ensures
        state.dispatch(config) == (RouterState {
            next_dispatch_round_start_with: state.finished_round(config).next_start(),
            ..state
        }),
        state.finished_round(config).next_start() == if state.needs_dispatch.len() == 0 {
            None
        } else {
            let i = start_position(state.needs_dispatch, state.next_dispatch_round_start_with);
            Some(state.needs_dispatch[(i + 1) as int % state.needs_dispatch.len() as int])
        },
{
    let listed = state.needs_dispatch;
    if let Some(p) = state.next_dispatch_round_start_with {
        if listed.contains(p) {
            let i = listed.index_of(p);
            assert(0 <= i < listed.len() && listed[i] == p);
        }
    }
    if listed.len() > 0 {
        lemma_mod_bound(
            (start_position(listed, state.next_dispatch_round_start_with) + 1) as int,
            listed.len() as int,
        );
    }
    assert(state.dispatch(config) =~= (RouterState {
        next_dispatch_round_start_with: state.finished_round(config).next_start(),
        ..state
    }));
}

proof fn lemma_round_of<BlockNumber>(state: RouterState<BlockNumber>, config: HostConfiguration)
    requires
        state.wf(),
        forall|p: ParaId| #[trigger] state.needs_dispatch.contains(p) ==> state.queue(p).len() > 0,
    ensures
        state.finished_round(config).pending == state.needs_dispatch.filter(
            waiting(state.finished_round(config).queues),
        ),
{
    assert forall|p: ParaId| #[trigger] state.needs_dispatch.contains(p) implies queue_of(
        state.relay_dispatch_queues,
        p,
    ).len() > 0 by {
        assert(state.queue(p).len() > 0);
    }
    law_round_delists_drained_paras(
        state.needs_dispatch,
        state.next_dispatch_round_start_with,
        state.relay_dispatch_queues,
        config.preferred_dispatchable_upward_messages_step_weight as nat,
        cost_under(config),
    );
}

/// If the listed paras are exactly those for which messages wait, they are so after a round.
pub proof fn law_dispatching_keeps_the_listing<BlockNumber>(
    state: RouterState<BlockNumber>,
    config: HostConfiguration,
)
    requires
        state.wf(),
        forall|p: ParaId| #[trigger]
            state.needs_dispatch.contains(p) <==> state.queue(p).len() > 0,
    ensures
        forall|p: ParaId| #[trigger]
            state.dispatch(config).needs_dispatch.contains(p) <==> state.dispatch(config).queue(
                p,
            ).len() > 0,
{
    let after = state.dispatch(config);
    let end = state.finished_round(config);
    lemma_round_of(state, config);
    lemma_filter_ascending(state.needs_dispatch, waiting(end.queues));
    assert forall|p: ParaId| #[trigger]
        after.needs_dispatch.contains(p) <==> after.queue(p).len() > 0 by {
        assert(after.needs_dispatch.contains(p) <==> state.needs_dispatch.contains(p) && waiting(
            end.queues,
        )(p));
        law_dispatching_is_fifo(state, config, p);
        if !state.needs_dispatch.contains(p) {
            if end.taken.contains(p) {
                law_only_listed_paras_have_turns(state, config, p);
            }
            law_dispatching_leaves_paras_without_a_turn_alone(state, config, p);
        }
    }
}

proof fn lemma_dispatched_queue<BlockNumber>(
    state: RouterState<BlockNumber>,
    config: HostConfiguration,
    para: ParaId,
)
    requires
        consistent(state),
    ensures
        ({
            let after = state.dispatch(config);
            &&& after.relay_dispatch_queues.contains_key(para) <==> after.needs_dispatch.contains(
                para,
            )
            &&& after.relay_dispatch_queues.contains_key(para) ==> after.relay_dispatch_queues[para].len()
                > 0
            &&& after.relay_dispatch_queue_size.contains_key(para)
                <==> after.relay_dispatch_queues.contains_key(para)
            &&& after.queue(para).len() == after.count(para)
            &&& payload_size(after.queue(para)) == after.size(para)
        }),
{
    let after = state.dispatch(config);
    let end = state.finished_round(config);
    lemma_round_of(state, config);
    lemma_filter_ascending(state.needs_dispatch, waiting(end.queues));
    assert(after.needs_dispatch.contains(para) <==> state.needs_dispatch.contains(para) && waiting(
        end.queues,
    )(para));
    assert(state.queue(para).len() == state.count(para));
    assert(payload_size(state.queue(para)) == state.size(para));
    assert(state.relay_dispatch_queues.contains_key(para) <==> state.needs_dispatch.contains(para));
    if end.taken.contains(para) {
        law_only_listed_paras_have_turns(state, config, para);
        law_dispatching_is_fifo(state, config, para);
        lemma_payload_size_add(handled_of(end.handled, para), after.queue(para));
    } else {
        law_dispatching_leaves_paras_without_a_turn_alone(state, config, para);
    }
}

/// A round of dispatching keeps what holds of the storage.
pub proof fn law_dispatching_keeps_consistency<BlockNumber>(
    state: RouterState<BlockNumber>,
    config: HostConfiguration,
)
    requires
        consistent(state),
    ensures
        consistent(state.dispatch(config)),
{
    let after = state.dispatch(config);
    let end = state.finished_round(config);
    lemma_round_of(state, config);
    lemma_filter_ascending(state.needs_dispatch, waiting(end.queues));
    assert forall|p: ParaId|
        #![trigger after.needs_dispatch.contains(p)]
        #![trigger after.relay_dispatch_queues.contains_key(p)]
        #![trigger after.queue(p)]
        {
            &&& after.relay_dispatch_queues.contains_key(p) <==> after.needs_dispatch.contains(p)
            &&& after.relay_dispatch_queues.contains_key(p) ==> after.relay_dispatch_queues[p].len()
                > 0
            &&& after.relay_dispatch_queue_size.contains_key(p)
                <==> after.relay_dispatch_queues.contains_key(p)
            &&& after.queue(p).len() == after.count(p)
            &&& payload_size(after.queue(p)) == after.size(p)
        } by {
        lemma_dispatched_queue(state, config, p);
    }
    assert(after.relay_dispatch_queue_size.dom() =~= after.relay_dispatch_queues.dom());
    law_round_goes_on_until_it_is_over(
        state.needs_dispatch,
        state.next_dispatch_round_start_with,
        state.relay_dispatch_queues,
        config.preferred_dispatchable_upward_messages_step_weight as nat,
        cost_under(config),
    );
}

/// A round that was left off at some para is taken up with the oldest message of that para.
pub proof fn law_next_round_starts_where_the_last_left_off<BlockNumber>(
    state: RouterState<BlockNumber>,
    config: HostConfiguration,
    next_config: HostConfiguration,
    para: ParaId,
)
    requires
        consistent(state),
        state.dispatch(config).next_dispatch_round_start_with == Some(para),
        next_config.preferred_dispatchable_upward_messages_step_weight > 0,
    ensures
        ({
            let end = state.dispatch(config).finished_round(next_config);
            end.handled.len() > 0 && end.handled[0] == (para, state.dispatch(config).queue(para)[0])
        }),
{
    let after = state.dispatch(config);
    law_dispatching_keeps_consistency(state, config);
    assert(after.needs_dispatch.contains(para));
    assert(after.relay_dispatch_queues.contains_key(para));
    assert(after.queue(para).len() > 0);
    law_round_starts_with_the_given_para(
        after.needs_dispatch,
        para,
        after.relay_dispatch_queues,
        next_config.preferred_dispatchable_upward_messages_step_weight as nat,
        cost_under(next_config),
    );
}

/// When no para needs dispatching, a round changes nothing but that the next one starts anywhere.
pub proof fn law_dispatching_nothing<BlockNumber>(
    state: RouterState<BlockNumber>,
    config: HostConfiguration,
)
    requires
        state.needs_dispatch.len() == 0,
    ensures
        state.dispatch(config) == (RouterState { next_dispatch_round_start_with: None, ..state }),
{
    assert(state.dispatch(config) =~= (RouterState {
        next_dispatch_round_start_with: None,
        ..state
    }));
}

/// No message uses up weight, as none decodes.
pub proof fn law_no_message_uses_weight(message: Seq<u8>, critical_weight: Weight)
    ensures
        message_weight(message, critical_weight) == 0,
{
}

/// As no message uses up weight, no number of messages does.
pub proof fn lemma_total_cost_is_zero(handled: Seq<(ParaId, Seq<u8>)>, config: HostConfiguration)
    ensures
        total_cost(handled, cost_under(config)) == 0,
    decreases handled.len(),
{
    if handled.len() > 0 {
        lemma_total_cost_is_zero(handled.drop_last(), config);
    }
}

/// As no message uses up weight, a round with a preferred weight above zero leaves no para listed
/// and no start for the next round.
pub proof fn law_dispatching_leaves_nothing_waiting<BlockNumber>(
    state: RouterState<BlockNumber>,
    config: HostConfiguration,
)
    requires
        state.wf(),
        config.preferred_dispatchable_upward_messages_step_weight > 0,
    ensures
        state.dispatch(config).needs_dispatch == Seq::<ParaId>::empty(),
        state.dispatch(config).next_dispatch_round_start_with is None,
{
    let preferred = config.preferred_dispatchable_upward_messages_step_weight as nat;
    let end = state.finished_round(config);
    lemma_round_in_progress(
        state.needs_dispatch,
        state.next_dispatch_round_start_with,
        state.relay_dispatch_queues,
        preferred,
        cost_under(config),
    );
    law_round_goes_on_until_it_is_over(
        state.needs_dispatch,
        state.next_dispatch_round_start_with,
        state.relay_dispatch_queues,
        preferred,
        cost_under(config),
    );
    lemma_total_cost_is_zero(end.handled, config);
    assert(end.pending =~= Seq::<ParaId>::empty());
}

/// Forgetting the upward messages of a para keeps what holds of the storage.
pub proof fn law_cleanup_keeps_consistency<BlockNumber>(
    state: RouterState<BlockNumber>,
    para: ParaId,
)
    requires
        consistent(state),
    ensures
        consistent(state.cleanup_ump(para)),
{
    let after = state.cleanup_ump(para);
    lemma_filter_ascending(state.needs_dispatch, other_than(para));
    assert(after.relay_dispatch_queue_size.dom() =~= after.relay_dispatch_queues.dom());
    assert forall|p: ParaId| (#[trigger] after.queue(p)).len() == after.count(p) && payload_size(
        after.queue(p),
    ) == after.size(p) by {
        if p != para {
            assert(after.queue(p) == state.queue(p));
        }
    }
    assert forall|p: ParaId| #[trigger]
        after.needs_dispatch.contains(p) <==> state.needs_dispatch.contains(p) && p != para by {
        assert(after.needs_dispatch.contains(p) <==> state.needs_dispatch.contains(p) && other_than(
            para,
        )(p));
    }
    assert forall|p: ParaId| #[trigger] after.relay_dispatch_queues.contains_key(p) implies
        after.relay_dispatch_queues[p].len() > 0 by {
        assert(state.relay_dispatch_queues.contains_key(p));
    }
}

/// A para whose upward messages are forgotten has no queue and no size and is not listed; nothing
/// changes for any other para; and forgetting it again changes nothing.
pub proof fn law_cleanup_forgets_one_para<BlockNumber>(
    state: RouterState<BlockNumber>,
    para: ParaId,
)
    requires
        state.wf(),
    ensures
        ({
            let after = state.cleanup_ump(para);
            &&& !after.relay_dispatch_queues.contains_key(para)
            &&& !after.relay_dispatch_queue_size.contains_key(para)
            &&& !after.needs_dispatch.contains(para)
            &&& after.next_dispatch_round_start_with != Some(para)
            &&& forall|p: ParaId|
                p != para ==> {
                    &&& #[trigger] after.queue(p) == state.queue(p)
                    &&& after.count(p) == state.count(p)
                    &&& after.size(p) == state.size(p)
                    &&& (after.needs_dispatch.contains(p) <==> state.needs_dispatch.contains(p))
                    &&& (after.next_dispatch_round_start_with == Some(p)
                        <==> state.next_dispatch_round_start_with == Some(p))
                }
            &&& after.cleanup_ump(para) == after
        }),
{
    let after = state.cleanup_ump(para);
    lemma_filter_ascending(state.needs_dispatch, other_than(para));
    assert(!after.needs_dispatch.contains(para));
    lemma_without_absent(after.needs_dispatch, para);
    assert forall|p: ParaId| p != para implies {
        &&& #[trigger] after.queue(p) == state.queue(p)
        &&& after.count(p) == state.count(p)
        &&& after.size(p) == state.size(p)
        &&& (after.needs_dispatch.contains(p) <==> state.needs_dispatch.contains(p))
        &&& (after.next_dispatch_round_start_with == Some(p)
            <==> state.next_dispatch_round_start_with == Some(p))
    } by {
        assert(after.needs_dispatch.contains(p) <==> state.needs_dispatch.contains(p) && other_than(
            para,
        )(p));
    }
    assert(after.cleanup_ump(para) =~= after);
}

/// A new session keeps what holds of the storage.
pub proof fn law_new_session_keeps_consistency<BlockNumber>(state: RouterState<BlockNumber>)
    requires
        consistent(state),
    ensures
        consistent(state.new_session()),
{
    let after = state.new_session();
    let outgoing = state.outgoing_paras;
    lemma_filter_ascending(state.needs_dispatch, none_of(outgoing));
    assert(after.relay_dispatch_queue_size.dom() =~= after.relay_dispatch_queues.dom());
    assert forall|p: ParaId| (#[trigger] after.queue(p)).len() == after.count(p) && payload_size(
        after.queue(p),
    ) == after.size(p) by {
        if !outgoing.contains(p) {
            assert(after.queue(p) == state.queue(p));
        }
    }
    assert forall|p: ParaId| #[trigger]
        after.needs_dispatch.contains(p) <==> state.needs_dispatch.contains(p)
            && !outgoing.contains(p) by {
        assert(after.needs_dispatch.contains(p) <==> state.needs_dispatch.contains(p) && none_of(
            outgoing,
        )(p));
    }
    assert forall|p: ParaId| #[trigger] after.relay_dispatch_queues.contains_key(p) implies
        after.relay_dispatch_queues[p].len() > 0 by {
        assert(state.relay_dispatch_queues.contains_key(p));
    }
}

/// A new session leaves nothing of the paras that were scheduled for clean-up, changes nothing for
/// any other para, and leaves no para scheduled.
pub proof fn law_new_session_forgets_the_outgoing_paras<BlockNumber>(
    state: RouterState<BlockNumber>,
    para: ParaId,
)
    requires
        state.wf(),
    ensures
        ({
            let after = state.new_session();
            &&& after.outgoing_paras.len() == 0
            &&& state.outgoing_paras.contains(para) ==> {
                &&& !after.downward_message_queues.contains_key(para)
                &&& !after.downward_message_queue_heads.contains_key(para)
                &&& !after.relay_dispatch_queues.contains_key(para)
                &&& !after.relay_dispatch_queue_size.contains_key(para)
                &&& !after.needs_dispatch.contains(para)
                &&& after.next_dispatch_round_start_with != Some(para)
            }
            &&& !state.outgoing_paras.contains(para) ==> {
                &&& after.downward_message_queues.contains_key(para)
                    == state.downward_message_queues.contains_key(para)
                &&& after.downward_message_queues.contains_key(para) ==>
                    after.downward_message_queues[para] == state.downward_message_queues[para]
                &&& after.downward_message_queue_heads.contains_key(para)
                    == state.downward_message_queue_heads.contains_key(para)
                &&& after.downward_message_queue_heads.contains_key(para) ==>
                    after.downward_message_queue_heads[para]
                    == state.downward_message_queue_heads[para]
                &&& after.queue(para) == state.queue(para)
                &&& after.count(para) == state.count(para)
                &&& after.size(para) == state.size(para)
                &&& after.needs_dispatch.contains(para) == state.needs_dispatch.contains(para)
                &&& after.next_dispatch_round_start_with == Some(para)
                    <==> state.next_dispatch_round_start_with == Some(para)
            }
        }),
{
    lemma_filter_ascending(state.needs_dispatch, none_of(state.outgoing_paras));
    let after = state.new_session();
    assert(after.needs_dispatch.contains(para) <==> state.needs_dispatch.contains(para) && none_of(
        state.outgoing_paras,
    )(para));
}

/// A para that is scheduled for clean-up is among the outgoing paras, those that were among them
/// stay, scheduling it again changes nothing, and the order of scheduling does not matter.
pub proof fn law_scheduling<BlockNumber>(
    state: RouterState<BlockNumber>,
    para: ParaId,
    other: ParaId,
)
    requires
        state.wf(),
    ensures
        forall|p: ParaId| #[trigger]
            state.schedule_para_cleanup(para).outgoing_paras.contains(p) <==> p == para
                || state.outgoing_paras.contains(p),
        state.schedule_para_cleanup(para).schedule_para_cleanup(para)
            == state.schedule_para_cleanup(para),
        state.schedule_para_cleanup(para).schedule_para_cleanup(other)
            == state.schedule_para_cleanup(other).schedule_para_cleanup(para),
{
    lemma_with(state.outgoing_paras, para);
    lemma_with_commutes(state.outgoing_paras, para, other);
    assert(with(state.outgoing_paras, para).contains(para));
}

/// Messages that pass the acceptance criteria can be enacted, and the queue that they are appended
/// to is then within its limits.
pub proof fn law_accepted_messages_fit<BlockNumber>(
    state: RouterState<BlockNumber>,
    config: HostConfiguration,
    para: ParaId,
    messages: Seq<Seq<u8>>,
)
    requires
        consistent(state),
        state.accepts(config, para, messages),
    ensures
        state.can_account(para, messages),
        state.enact(para, messages).queue(para) == state.queue(para) + messages,
        state.enact(para, messages).queue(para).len() <= config.max_upward_queue_count,
        payload_size(state.enact(para, messages).queue(para)) <= config.max_upward_queue_size,
{
    assert(state.queue(para).len() == state.count(para));
    assert(payload_size(state.queue(para)) == state.size(para));
    lemma_payload_size_add(state.queue(para), messages);
    if messages.len() == 0 {
        assert(state.queue(para) + messages =~= state.queue(para));
    }
}

/// Enacting messages of a para in two parts comes to enacting them in one.
pub proof fn law_enacting_in_parts<BlockNumber>(
    state: RouterState<BlockNumber>,
    para: ParaId,
    first: Seq<Seq<u8>>,
    second: Seq<Seq<u8>>,
)
    requires
        state.wf(),
        state.can_account(para, first + second),
    ensures
        state.enact(para, first).enact(para, second) == state.enact(para, first + second),
{
    lemma_payload_size_add(first, second);
    if first.len() == 0 {
        assert(first + second =~= second);
    } else if second.len() == 0 {
        assert(first + second =~= first);
    } else {
        lemma_with(state.needs_dispatch, para);
        assert(with(state.needs_dispatch, para).contains(para));
        let half = state.enact(para, first);
        assert((state.queue(para) + first) + second =~= state.queue(para) + (first + second));
        assert(half.enact(para, second) =~= state.enact(para, first + second));
    }
}

/// It does not matter in which order messages of two paras are enacted.
pub proof fn law_enacting_for_two_paras<BlockNumber>(
    state: RouterState<BlockNumber>,
    para: ParaId,
    messages: Seq<Seq<u8>>,
    other: ParaId,
    other_messages: Seq<Seq<u8>>,
)
    requires
        state.wf(),
        para != other,
    ensures
        state.enact(para, messages).enact(other, other_messages) == state.enact(
            other,
            other_messages,
        ).enact(para, messages),
{
    if messages.len() > 0 && other_messages.len() > 0 {
        lemma_with_commutes(state.needs_dispatch, para, other);
        let a = state.enact(para, messages);
        let b = state.enact(other, other_messages);
        assert(a.queue(other) == state.queue(other));
        assert(b.queue(para) == state.queue(para));
        assert(a.enact(other, other_messages).relay_dispatch_queues =~= b.enact(
            para,
            messages,
        ).relay_dispatch_queues);
        assert(a.enact(other, other_messages).relay_dispatch_queue_size =~= b.enact(
            para,
            messages,
        ).relay_dispatch_queue_size);
        assert(a.enact(other, other_messages) =~= b.enact(para, messages));
    }
}

} // verus!
