use parachains_router::primitives::{InboundDownwardMessage, ParaId};
use parachains_router::router::{Module, Trait};
use parachains_router::sorted::{binary_search, insert, remove};
use parachains_router::storage::ParaMap;
use parachains_router::weights::RuntimeDbWeight;

struct Test;

impl Trait for Test {
    type BlockNumber = u32;
}

type Router = Module<Test>;

const DB_WEIGHT: RuntimeDbWeight = RuntimeDbWeight { read: 1, write: 1 };

fn full_router(ids: &[u32]) -> Router {
    let mut router = Router::new();
    for id in ids {
        let para = ParaId(*id);
        router.enact_upward_messages(DB_WEIGHT, para, &[vec![1, 2, 3]]);
        router.downward_message_queues.insert(
            para,
            vec![InboundDownwardMessage { sent_at: 10, msg: vec![*id as u8] }],
        );
        router.downward_message_queue_heads.insert(para, [*id as u8; 32]);
    }
    router
}

#[test]
fn scheduling_keeps_the_list_ascending() {
    let mut router = Router::new();
    for id in [5, 1, 9, 5, 3, 1] {
        router.schedule_para_cleanup(ParaId(id));
    }
    assert_eq!(router.outgoing_paras, vec![ParaId(1), ParaId(3), ParaId(5), ParaId(9)]);
}

#[test]
fn the_order_of_scheduling_does_not_matter() {
    let mut one = Router::new();
    one.schedule_para_cleanup(ParaId(2));
    one.schedule_para_cleanup(ParaId(1));
    let mut other = Router::new();
    other.schedule_para_cleanup(ParaId(1));
    other.schedule_para_cleanup(ParaId(2));
    assert_eq!(one.outgoing_paras, other.outgoing_paras);
}

#[test]
fn a_new_session_forgets_the_outgoing_paras() {
    let mut router = full_router(&[1, 2, 3]);
    router.schedule_para_cleanup(ParaId(3));
    router.schedule_para_cleanup(ParaId(1));
    router.schedule_para_cleanup(ParaId(8));
    router.initializer_on_new_session();
    assert!(router.outgoing_paras.is_empty());
    for gone in [ParaId(1), ParaId(3), ParaId(8)] {
        assert!(router.downward_message_queues.get(gone).is_none());
        assert_eq!(router.downward_message_queue_heads.get(gone), None);
        assert_eq!(router.relay_dispatch_queues.get(gone), None);
        assert_eq!(router.relay_dispatch_queue_size.get(gone), None);
    }
    assert_eq!(router.needs_dispatch, vec![ParaId(2)]);
    assert_eq!(router.downward_message_queues.get(ParaId(2)).unwrap()[0].msg, vec![2]);
    assert_eq!(router.downward_message_queues.get(ParaId(2)).unwrap()[0].sent_at, 10);
    assert_eq!(router.downward_message_queue_heads.get(ParaId(2)), Some(&[2; 32]));
    assert_eq!(router.relay_dispatch_queue_size.get(ParaId(2)), Some(&(1, 3)));
}

#[test]
fn a_new_session_without_outgoing_paras_changes_nothing() {
    let mut router = full_router(&[1, 2]);
    router.next_dispatch_round_start_with = Some(ParaId(2));
    router.initializer_on_new_session();
    assert_eq!(router.needs_dispatch, vec![ParaId(1), ParaId(2)]);
    assert_eq!(router.next_dispatch_round_start_with, Some(ParaId(2)));
    assert_eq!(router.relay_dispatch_queue_size.get(ParaId(1)), Some(&(1, 3)));
}

#[test]
fn a_new_session_and_the_start_of_the_next_round() {
    let start_after = |start: u32, outgoing: &[u32]| {
        let mut router = full_router(&[1, 2, 3]);
        router.next_dispatch_round_start_with = Some(ParaId(start));
        for id in outgoing {
            router.schedule_para_cleanup(ParaId(*id));
        }
        router.initializer_on_new_session();
        router.next_dispatch_round_start_with
    };
    assert_eq!(start_after(2, &[2]), None);
    assert_eq!(start_after(2, &[1]), Some(ParaId(2)));
    assert_eq!(start_after(2, &[1, 3]), Some(ParaId(2)));
    assert_eq!(start_after(2, &[2, 3]), None);
    assert_eq!(start_after(2, &[1, 2]), None);
}

#[test]
fn blocks_begin_and_end_without_work() {
    let mut router = full_router(&[4]);
    assert_eq!(router.initializer_initialize(17), 0);
    router.initializer_finalize();
    assert_eq!(router.needs_dispatch, vec![ParaId(4)]);
    assert_eq!(router.relay_dispatch_queue_size.get(ParaId(4)), Some(&(1, 3)));
}

#[test]
fn searching_an_ascending_list() {
    let list: Vec<ParaId> = [2, 4, 8, 16].iter().map(|id| ParaId(*id)).collect();
    assert_eq!(binary_search(&list, ParaId(2)), Ok(0));
    assert_eq!(binary_search(&list, ParaId(16)), Ok(3));
    assert_eq!(binary_search(&list, ParaId(1)), Err(0));
    assert_eq!(binary_search(&list, ParaId(5)), Err(2));
    assert_eq!(binary_search(&list, ParaId(99)), Err(4));
    assert_eq!(binary_search(&Vec::new(), ParaId(0)), Err(0));
}

#[test]
fn changing_an_ascending_list() {
    let mut list: Vec<ParaId> = vec![ParaId(2), ParaId(6)];
    insert(&mut list, ParaId(4));
    insert(&mut list, ParaId(4));
    assert_eq!(list, vec![ParaId(2), ParaId(4), ParaId(6)]);
    remove(&mut list, ParaId(2));
    remove(&mut list, ParaId(5));
    assert_eq!(list, vec![ParaId(4), ParaId(6)]);
}

#[test]
fn a_map_keeps_one_value_for_each_para() {
    let mut map: ParaMap<u8> = ParaMap::new();
    map.insert(ParaId(1), 10);
    map.insert(ParaId(2), 20);
    map.insert(ParaId(1), 11);
    assert_eq!(map.get(ParaId(1)), Some(&11));
    assert_eq!(map.remove(ParaId(1)), Some(11));
    assert_eq!(map.remove(ParaId(1)), None);
    assert_eq!(map.get(ParaId(2)), Some(&20));
}
