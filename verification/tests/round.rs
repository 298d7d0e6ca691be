use parachains_router::primitives::ParaId;
use parachains_router::router::dispatch::DispatchRound;

fn paras(ids: &[u32]) -> Vec<ParaId> {
    ids.iter().map(|id| ParaId(*id)).collect()
}

#[test]
fn a_round_goes_round() {
    let mut round = DispatchRound::begin(paras(&[1, 5, 9]), Some(ParaId(5)));
    for expected in [5, 9, 1, 5] {
        let para = round.next_dispatchee(100).unwrap();
        assert_eq!(para, ParaId(expected));
        round.settle(para, 10, false);
    }
    assert_eq!(round.finish(), (paras(&[1, 5, 9]), Some(ParaId(9))));
}

#[test]
fn a_round_stops_at_the_preferred_weight() {
    let mut round = DispatchRound::begin(paras(&[1, 2, 3]), None);
    let first = round.next_dispatchee(50).unwrap();
    assert_eq!(first, ParaId(1));
    round.settle(first, 49, false);
    let second = round.next_dispatchee(50).unwrap();
    assert_eq!(second, ParaId(2));
    // a message may overshoot
    round.settle(second, 1000, false);
    assert_eq!(round.next_dispatchee(50), None);
    // the para whose turn it was is passed over
    assert_eq!(round.finish(), (paras(&[1, 2, 3]), Some(ParaId(1))));
}

#[test]
fn a_drained_para_takes_no_further_turns() {
    let mut round = DispatchRound::begin(paras(&[1, 2, 3, 4]), None);
    let first = round.next_dispatchee(1).unwrap();
    assert_eq!(first, ParaId(1));
    round.settle(first, 0, true);
    // the turn goes to the para behind it
    let second = round.next_dispatchee(1).unwrap();
    assert_eq!(second, ParaId(2));
    round.settle(second, 0, false);
    assert_eq!(round.next_dispatchee(1), Some(ParaId(3)));
    assert_eq!(round.finish(), (paras(&[2, 3, 4]), Some(ParaId(4))));
}

#[test]
fn a_round_over_no_paras_is_over() {
    let mut round = DispatchRound::begin(Vec::new(), Some(ParaId(1)));
    assert_eq!(round.next_dispatchee(u64::MAX), None);
    assert_eq!(round.finish(), (Vec::new(), None));
}

#[test]
fn turns_go_on_when_paras_are_drained() {
    let mut round = DispatchRound::begin(paras(&[1, 2, 3]), Some(ParaId(2)));
    for expected in [2, 3, 1] {
        let para = round.next_dispatchee(1).unwrap();
        assert_eq!(para, ParaId(expected));
        round.settle(para, 0, true);
    }
    assert_eq!(round.next_dispatchee(1), None);
    assert_eq!(round.finish(), (Vec::new(), None));
}

#[test]
fn a_drained_last_para_hands_over_to_the_first() {
    let mut round = DispatchRound::begin(paras(&[1, 2, 3]), Some(ParaId(3)));
    let para = round.next_dispatchee(1).unwrap();
    assert_eq!(para, ParaId(3));
    round.settle(para, 0, true);
    assert_eq!(round.finish(), (paras(&[1, 2]), Some(ParaId(1))));
}
