use std::collections::VecDeque;

use parachains_router::configuration::HostConfiguration;
use parachains_router::primitives::{ParaId, UpwardMessage};
use parachains_router::router::{Module, Trait};
use parachains_router::weights::RuntimeDbWeight;
use parachains_router::router::ump::HandledMessage;
use parachains_router::xcm::{
    dispatch, dispatch_decoded, may_execute, used_weight, DecodeError, DispatchOutcome, Xcm,
};

struct Test;

impl Trait for Test {
    type BlockNumber = u32;
}

type Router = Module<Test>;

const DB_WEIGHT: RuntimeDbWeight = RuntimeDbWeight { read: 10, write: 100 };

fn messages(lengths: &[usize]) -> Vec<UpwardMessage> {
    lengths.iter().enumerate().map(|(i, len)| vec![i as u8; *len]).collect()
}

fn router_with(queues: &[(u32, usize)]) -> Router {
    let mut router = Router::new();
    for (para, count) in queues {
        router.enact_upward_messages(DB_WEIGHT, ParaId(*para), &messages(&vec![1; *count]));
    }
    router
}

fn budget(preferred: u64) -> HostConfiguration {
    HostConfiguration {
        preferred_dispatchable_upward_messages_step_weight: preferred,
        ..HostConfiguration::default()
    }
}

fn limits(per_candidate: u32, count: u32, size: u32) -> HostConfiguration {
    HostConfiguration {
        max_upward_message_num_per_candidate: per_candidate,
        max_upward_queue_count: count,
        max_upward_queue_size: size,
        ..HostConfiguration::default()
    }
}

fn handled_by(handled: &[HandledMessage]) -> Vec<(u32, u8)> {
    handled.iter().map(|h| (h.para.0, h.message[0])).collect()
}

fn paras(ids: &[u32]) -> Vec<ParaId> {
    ids.iter().map(|id| ParaId(*id)).collect()
}

#[test]
fn ump_dispatch_empty() {
    let mut router = Router::new();
    // make sure that the case with empty queues is handled properly
    router.process_pending_upward_messages(&HostConfiguration::default());
    assert!(router.needs_dispatch.is_empty());
    assert_eq!(router.next_dispatch_round_start_with, None);
}

#[test]
fn dispatching_nothing_resets_the_start() {
    let mut router = Router::new();
    router.next_dispatch_round_start_with = Some(ParaId(7));
    router.process_pending_upward_messages(&budget(10));
    assert!(router.needs_dispatch.is_empty());
    assert_eq!(router.next_dispatch_round_start_with, None);
}

#[test]
fn enacting_appends_accounts_and_lists() {
    let mut router = Router::new();
    let first = messages(&[3, 0]);
    let second = vec![vec![9u8, 8]];
    assert_eq!(router.enact_upward_messages(DB_WEIGHT, ParaId(5), &first), 330);
    assert_eq!(router.enact_upward_messages(DB_WEIGHT, ParaId(2), &second), 330);
    assert_eq!(router.enact_upward_messages(DB_WEIGHT, ParaId(5), &second), 330);
    let expected: VecDeque<UpwardMessage> = vec![vec![0, 0, 0], vec![], vec![9, 8]].into();
    assert_eq!(router.relay_dispatch_queues.get(ParaId(5)), Some(&expected));
    assert_eq!(router.relay_dispatch_queue_size.get(ParaId(5)), Some(&(3, 5)));
    assert_eq!(router.relay_dispatch_queue_size.get(ParaId(2)), Some(&(1, 2)));
    assert_eq!(router.needs_dispatch, paras(&[2, 5]));
    assert_eq!(router.next_dispatch_round_start_with, None);
}

#[test]
fn enacting_nothing_changes_nothing() {
    let mut router = Router::new();
    assert_eq!(router.enact_upward_messages(DB_WEIGHT, ParaId(5), &[]), 0);
    assert_eq!(router.relay_dispatch_queues.get(ParaId(5)), None);
    assert_eq!(router.relay_dispatch_queue_size.get(ParaId(5)), None);
    assert!(router.needs_dispatch.is_empty());
}

#[test]
fn the_weight_of_enacting_saturates() {
    let one = messages(&[1]);
    let costly_reads = RuntimeDbWeight { read: u64::MAX, write: 0 };
    assert_eq!(Router::new().enact_upward_messages(costly_reads, ParaId(1), &one), u64::MAX);
    let costly_writes = RuntimeDbWeight { read: 1, write: u64::MAX / 2 };
    assert_eq!(Router::new().enact_upward_messages(costly_writes, ParaId(1), &one), u64::MAX);
    let both = RuntimeDbWeight { read: u64::MAX / 3, write: 1 };
    assert_eq!(Router::new().enact_upward_messages(both, ParaId(1), &one), u64::MAX);
    let cheap = RuntimeDbWeight { read: 0, write: 7 };
    assert_eq!(Router::new().enact_upward_messages(cheap, ParaId(1), &one), 21);
}

#[test]
fn too_many_messages_are_refused() {
    let router = Router::new();
    assert!(router.check_upward_messages(&limits(2, 10, 10), ParaId(1), &messages(&[1, 1])));
    assert!(!router.check_upward_messages(&limits(2, 10, 10), ParaId(1), &messages(&[1, 1, 1])));
    assert!(router.check_upward_messages(&limits(0, 0, 0), ParaId(1), &[]));
}

#[test]
fn an_overfilled_queue_is_refused() {
    let mut router = Router::new();
    router.enact_upward_messages(DB_WEIGHT, ParaId(1), &messages(&[4, 4]));
    let one = messages(&[2]);
    assert!(router.check_upward_messages(&limits(5, 3, 10), ParaId(1), &one));
    assert!(!router.check_upward_messages(&limits(5, 2, 10), ParaId(1), &one));
    assert!(!router.check_upward_messages(&limits(5, 3, 9), ParaId(1), &one));
    // the queue of another para is empty
    assert!(router.check_upward_messages(&limits(5, 1, 2), ParaId(2), &one));
    // a queue that is over its limits already takes nothing, not even nothing
    assert!(!router.check_upward_messages(&limits(5, 1, 10), ParaId(1), &[]));
}

#[test]
fn accepted_messages_fit() {
    let mut router = Router::new();
    let config = limits(2, 3, 6);
    let batch = messages(&[2, 1]);
    assert!(router.check_upward_messages(&config, ParaId(1), &batch));
    router.enact_upward_messages(DB_WEIGHT, ParaId(1), &batch);
    assert!(!router.check_upward_messages(&config, ParaId(1), &batch));
    assert!(router.check_upward_messages(&config, ParaId(1), &messages(&[3])));
    assert_eq!(router.relay_dispatch_queue_size.get(ParaId(1)), Some(&(2, 3)));
}

#[test]
fn enacting_in_parts_comes_to_the_same() {
    let all = messages(&[1, 2, 3]);
    let mut once = Router::new();
    once.enact_upward_messages(DB_WEIGHT, ParaId(4), &all);
    let mut twice = Router::new();
    twice.enact_upward_messages(DB_WEIGHT, ParaId(4), &all[..1]);
    twice.enact_upward_messages(DB_WEIGHT, ParaId(4), &all[1..]);
    assert_eq!(
        once.relay_dispatch_queues.get(ParaId(4)),
        twice.relay_dispatch_queues.get(ParaId(4))
    );
    assert_eq!(
        once.relay_dispatch_queue_size.get(ParaId(4)),
        twice.relay_dispatch_queue_size.get(ParaId(4))
    );
    assert_eq!(once.needs_dispatch, twice.needs_dispatch);
}

#[test]
fn enacting_for_two_paras_in_either_order() {
    let (a, b) = (messages(&[1]), messages(&[2, 2]));
    let mut one = Router::new();
    one.enact_upward_messages(DB_WEIGHT, ParaId(8), &a);
    one.enact_upward_messages(DB_WEIGHT, ParaId(3), &b);
    let mut other = Router::new();
    other.enact_upward_messages(DB_WEIGHT, ParaId(3), &b);
    other.enact_upward_messages(DB_WEIGHT, ParaId(8), &a);
    assert_eq!(one.needs_dispatch, paras(&[3, 8]));
    assert_eq!(other.needs_dispatch, paras(&[3, 8]));
    for para in [ParaId(3), ParaId(8)] {
        assert_eq!(one.relay_dispatch_queues.get(para), other.relay_dispatch_queues.get(para));
    }
}

#[test]
fn totals_beyond_the_range_of_the_table_are_refused() {
    let mut router = Router::new();
    router.relay_dispatch_queue_size.insert(ParaId(1), (1, u32::MAX));
    let one = vec![vec![0u8]];
    assert!(!router.check_upward_messages(&limits(1, 10, u32::MAX), ParaId(1), &one));
    assert!(!router.can_enact(ParaId(1), &one));
    assert!(router.check_upward_messages(&limits(1, 10, u32::MAX), ParaId(1), &[vec![]]));
    assert!(router.can_enact(ParaId(1), &[vec![]]));

    router.relay_dispatch_queue_size.insert(ParaId(2), (u32::MAX, 0));
    assert!(!router.check_upward_messages(&limits(1, u32::MAX, u32::MAX), ParaId(2), &[vec![]]));
    assert!(!router.can_enact(ParaId(2), &[vec![]]));
    assert!(router.can_enact(ParaId(2), &[]));
}

#[test]
fn a_single_queue_is_drained() {
    let mut router = router_with(&[(4, 3)]);
    let handled = router.process_pending_upward_messages(&budget(1));
    assert_eq!(handled_by(&handled), vec![(4, 0), (4, 1), (4, 2)]);
    assert_eq!(handled[2].outcome, DispatchOutcome::Undecodable(DecodeError::UnknownVariant(2)));
    assert!(router.needs_dispatch.is_empty());
    assert_eq!(router.next_dispatch_round_start_with, None);
    // what has been handled is not stored any longer
    assert_eq!(router.relay_dispatch_queues.get(ParaId(4)), None);
    assert_eq!(router.relay_dispatch_queue_size.get(ParaId(4)), None);
    assert!(router.process_pending_upward_messages(&budget(1)).is_empty());
}

#[test]
fn nothing_is_handled_twice() {
    let mut router = router_with(&[(4, 1)]);
    assert_eq!(handled_by(&router.process_pending_upward_messages(&budget(1))), vec![(4, 0)]);
    router.enact_upward_messages(DB_WEIGHT, ParaId(4), &[vec![77]]);
    assert_eq!(router.relay_dispatch_queue_size.get(ParaId(4)), Some(&(1, 1)));
    assert_eq!(handled_by(&router.process_pending_upward_messages(&budget(1))), vec![(4, 77)]);
    assert!(router.needs_dispatch.is_empty());
}

#[test]
fn a_round_below_its_weight_leaves_nothing_waiting() {
    let mut router = router_with(&[(1, 1), (2, 1)]);
    let handled = router.process_pending_upward_messages(&budget(1));
    assert_eq!(handled_by(&handled), vec![(1, 0), (2, 0)]);
    assert!(router.needs_dispatch.is_empty());
    assert_eq!(router.next_dispatch_round_start_with, None);

    let mut longer = router_with(&[(1, 2), (2, 3)]);
    let handled = longer.process_pending_upward_messages(&budget(1));
    assert_eq!(handled_by(&handled), vec![(1, 0), (2, 0), (1, 1), (2, 1), (2, 2)]);
    assert!(longer.needs_dispatch.is_empty());
}

#[test]
fn three_queues_take_turns() {
    let mut router = router_with(&[(1, 1), (2, 2), (3, 1)]);
    let handled = router.process_pending_upward_messages(&budget(1));
    assert_eq!(handled_by(&handled), vec![(1, 0), (2, 0), (3, 0), (2, 1)]);
    assert!(router.needs_dispatch.is_empty());
    assert_eq!(router.next_dispatch_round_start_with, None);
}

#[test]
fn a_round_starts_with_the_given_para() {
    let mut router = router_with(&[(1, 1), (2, 1)]);
    router.next_dispatch_round_start_with = Some(ParaId(2));
    let handled = router.process_pending_upward_messages(&budget(1));
    assert_eq!(handled_by(&handled), vec![(2, 0), (1, 0)]);

    // a para that is not listed is no start
    let mut router = router_with(&[(1, 1), (2, 1)]);
    router.next_dispatch_round_start_with = Some(ParaId(3));
    let handled = router.process_pending_upward_messages(&budget(1));
    assert_eq!(handled_by(&handled), vec![(1, 0), (2, 0)]);
}

#[test]
fn without_weight_only_the_start_moves_on() {
    let mut router = router_with(&[(1, 1), (2, 1)]);
    router.process_pending_upward_messages(&budget(0));
    assert_eq!(router.needs_dispatch, paras(&[1, 2]));
    assert_eq!(router.next_dispatch_round_start_with, Some(ParaId(2)));
    router.process_pending_upward_messages(&budget(0));
    assert_eq!(router.needs_dispatch, paras(&[1, 2]));
    assert_eq!(router.next_dispatch_round_start_with, Some(ParaId(1)));
    assert_eq!(router.relay_dispatch_queue_size.get(ParaId(1)), Some(&(1, 1)));
}

#[test]
fn without_a_turn_a_para_keeps_its_entries() {
    let mut router = router_with(&[(1, 1), (2, 1)]);
    router.relay_dispatch_queue_size.insert(ParaId(1), (7, 7));
    router.relay_dispatch_queues.insert(ParaId(2), VecDeque::new());
    router.relay_dispatch_queue_size.insert(ParaId(2), (0, 0));
    assert!(router.process_pending_upward_messages(&budget(0)).is_empty());
    assert_eq!(router.needs_dispatch, paras(&[1, 2]));
    assert_eq!(router.relay_dispatch_queues.get(ParaId(1)).map(|queue| queue.len()), Some(1));
    assert_eq!(router.relay_dispatch_queue_size.get(ParaId(1)), Some(&(7, 7)));
    assert_eq!(router.relay_dispatch_queues.get(ParaId(2)), Some(&VecDeque::new()));
    assert_eq!(router.relay_dispatch_queue_size.get(ParaId(2)), Some(&(0, 0)));
    assert_eq!(router.next_dispatch_round_start_with, Some(ParaId(2)));
}

#[test]
fn a_listed_para_without_messages_is_delisted() {
    let mut router = Router::new();
    router.needs_dispatch = paras(&[6]);
    assert!(router.process_pending_upward_messages(&budget(1)).is_empty());
    assert!(router.needs_dispatch.is_empty());
    assert_eq!(router.relay_dispatch_queues.get(ParaId(6)), None);
}

#[test]
fn cleaning_up_forgets_one_para() {
    let mut router = router_with(&[(1, 1), (2, 2), (3, 1)]);
    router.outgoing_para_cleanup_ump(ParaId(2));
    assert_eq!(router.needs_dispatch, paras(&[1, 3]));
    assert_eq!(router.relay_dispatch_queues.get(ParaId(2)), None);
    assert_eq!(router.relay_dispatch_queue_size.get(ParaId(2)), None);
    assert_eq!(router.relay_dispatch_queue_size.get(ParaId(1)), Some(&(1, 1)));
    assert_eq!(router.relay_dispatch_queue_size.get(ParaId(3)), Some(&(1, 1)));
    router.outgoing_para_cleanup_ump(ParaId(2));
    assert_eq!(router.needs_dispatch, paras(&[1, 3]));
}

#[test]
fn cleaning_up_resets_the_start_of_the_para_itself_only() {
    let mut router = router_with(&[(1, 1), (2, 1)]);
    router.next_dispatch_round_start_with = Some(ParaId(2));
    router.outgoing_para_cleanup_ump(ParaId(1));
    assert_eq!(router.next_dispatch_round_start_with, Some(ParaId(2)));
    router.outgoing_para_cleanup_ump(ParaId(2));
    assert_eq!(router.next_dispatch_round_start_with, None);
}

#[test]
fn no_message_decodes() {
    assert_eq!(Xcm::decode(&[]), Err(DecodeError::MissingVariant));
    assert_eq!(Xcm::decode(&[0]), Err(DecodeError::UnknownVariant(0)));
    assert_eq!(Xcm::decode(&[200, 1, 2]), Err(DecodeError::UnknownVariant(200)));
    let outcome = dispatch(&[1, 2, 3], u64::MAX);
    assert_eq!(outcome, DispatchOutcome::Undecodable(DecodeError::UnknownVariant(1)));
    assert_eq!(outcome.weight(), 0);
}

#[test]
fn the_critical_weight_decides_on_execution() {
    assert!(may_execute(9, 10));
    assert!(may_execute(10, 10));
    assert!(!may_execute(11, 10));
}

#[test]
fn a_decoded_message_is_run_unless_it_is_too_heavy() {
    let decide = |decoded: Result<u64, DecodeError>, critical: u64| {
        dispatch_decoded(decoded, critical, |x: &u64| *x * 2, |x: u64| if x > 3 { Err(x) } else { Ok(x + 1) })
    };
    assert_eq!(decide(Ok(3), 6), DispatchOutcome::Executed(Ok(4)));
    assert_eq!(decide(Ok(5), 10), DispatchOutcome::Executed(Err(5)));
    assert_eq!(decide(Ok(5), 9), DispatchOutcome::TooHeavy(10));
    assert_eq!(
        decide(Err(DecodeError::MissingVariant), 9),
        DispatchOutcome::Undecodable(DecodeError::MissingVariant)
    );
}

#[test]
fn a_failed_execution_uses_weight_too() {
    assert_eq!(used_weight(Ok(5)), 5);
    assert_eq!(used_weight(Err(7)), 7);
    assert_eq!(DispatchOutcome::Executed(Err(7)).weight(), 7);
    assert_eq!(DispatchOutcome::Executed(Ok(5)).weight(), 5);
    assert_eq!(DispatchOutcome::TooHeavy(100).weight(), 0);
}
