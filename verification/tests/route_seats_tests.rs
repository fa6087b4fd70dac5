use dsm_sdk::route_seats::{
    agreed, ByteCommit,
    any_cycle_closed, append_slots, continue_position, holds_any, leader_reports, leader_unanswered,
    leader_view, missing_at_leader, others_of, parent_cycle, position_pair_continues, reaches_route_end,
    seat_slots, write_start, ArrivalRecord, ChainSlot, LeaderHolds, NodeSeats, WriteReport, WriteStart,
    FINAL_LINKS,
};

fn commit(member: &[u8], cycle: u64, root: u8) -> ByteCommit {
    ByteCommit {
        member_id: member.to_vec(),
        cycle_index: cycle,
        smt_root: [root; 32],
        bytes_used: 1,
        parent_digest: [7u8; 32],
    }
}

fn same(a: &ByteCommit, b: &ByteCommit) -> bool {
    a.member_id == b.member_id
        && a.cycle_index == b.cycle_index
        && a.smt_root == b.smt_root
        && a.bytes_used == b.bytes_used
        && a.parent_digest == b.parent_digest
}

#[test]
fn mirrors_that_agree_give_the_byte_commit() {
    let m = b"dsm-node-1";
    let held = [vec![commit(m, 3, 1)], vec![commit(m, 3, 1)], Vec::new()];
    let got = agreed(m, 3, &held).expect("the agreed commit");
    assert!(same(&got, &commit(m, 3, 1)));
}

#[test]
fn two_mirrors_holding_different_byte_commits_give_none() {
    let m = b"dsm-node-1";
    let held = [vec![commit(m, 3, 1)], vec![commit(m, 3, 2)]];
    assert!(agreed(m, 3, &held).is_none());
}

#[test]
fn one_mirror_holding_two_byte_commits_gives_none() {
    let m = b"dsm-node-1";
    let held = [vec![commit(m, 3, 1), commit(m, 3, 2)]];
    assert!(agreed(m, 3, &held).is_none());
}

#[test]
fn a_byte_commit_of_another_member_or_cycle_gives_none() {
    let m = b"dsm-node-1";
    assert!(agreed(m, 3, &[vec![commit(b"dsm-node-2", 3, 1)]]).is_none());
    assert!(agreed(m, 3, &[vec![commit(m, 4, 1)]]).is_none());
}

#[test]
fn nothing_mirrored_gives_none() {
    let m = b"dsm-node-1";
    assert!(agreed(m, 3, &[Vec::new(), Vec::new()]).is_none());
    assert!(agreed(m, 3, &[]).is_none());
}

#[test]
fn a_commit_differing_only_in_bytes_used_is_equivocation() {
    let m = b"dsm-node-1";
    let mut other = commit(m, 3, 1);
    other.bytes_used = 2;
    assert!(agreed(m, 3, &[vec![commit(m, 3, 1)], vec![other]]).is_none());
}

fn link(b: u8) -> ChainSlot {
    ChainSlot::Link(ArrivalRecord { bytes: vec![b] })
}

fn report(slots: Vec<ChainSlot>) -> WriteReport {
    WriteReport { slots }
}

fn slot_bytes(s: &ChainSlot) -> Option<Vec<u8>> {
    match s {
        ChainSlot::Link(r) => Some(r.bytes.clone()),
        ChainSlot::NoResponse => None,
    }
}

#[test]
fn a_chain_short_of_final_links_at_the_route_end_starts_again() {
    assert_eq!(FINAL_LINKS, 3);
    // Leader link, then two silent seats: closed short on a three-seat route.
    let short = report(vec![link(1), ChainSlot::NoResponse, ChainSlot::NoResponse]);
    assert!(short.reached_leader());
    assert!(short.closed_short(3));
    assert!(matches!(write_start(Some(short), 3), WriteStart::FromLeader));
    // A partial chain holding its leader link continues where it stopped.
    let partial = report(vec![link(1), link(2)]);
    assert!(!partial.closed_short(5));
    assert_eq!(continue_position(&partial, 5), Some(2));
    match write_start(Some(partial), 5) {
        WriteStart::Continue(w) => assert_eq!(w.slots.len(), 2),
        WriteStart::FromLeader => panic!("a partial chain continues"),
    }
    // No leader link: start again.
    let headless = report(vec![ChainSlot::NoResponse, link(2)]);
    assert!(!headless.reached_leader());
    assert_eq!(continue_position(&headless, 5), None);
    assert!(matches!(write_start(Some(headless), 5), WriteStart::FromLeader));
    assert!(matches!(write_start(None, 5), WriteStart::FromLeader));
}

#[test]
fn a_position_pair_continues_only_together() {
    let good = || Some(report(vec![link(1)]));
    assert!(position_pair_continues(&good(), &good(), 4));
    assert!(!position_pair_continues(&good(), &None, 4));
    assert!(!position_pair_continues(&Some(report(vec![ChainSlot::NoResponse])), &good(), 4));
    let full = report(vec![link(1), link(2), link(3), link(4)]);
    assert!(reaches_route_end(&full, 4));
    assert_eq!(continue_position(&full, 4), None);
}

#[test]
fn the_leader_is_given_only_what_it_answered_it_lacks() {
    let holds = [
        LeaderHolds::Record(ArrivalRecord { bytes: vec![9] }),
        LeaderHolds::Nothing,
        LeaderHolds::Nothing,
    ];
    assert_eq!(missing_at_leader(&holds), Some(vec![1, 2]));
    let unread = [LeaderHolds::Nothing, LeaderHolds::Unread];
    assert_eq!(missing_at_leader(&unread), None);
}

#[test]
fn leader_links_keep_the_first_copy_and_take_new_records_in_order() {
    let holds = vec![
        LeaderHolds::Nothing,
        LeaderHolds::Record(ArrivalRecord { bytes: vec![0xAA] }),
        LeaderHolds::Nothing,
    ];
    let put = Ok(vec![ArrivalRecord { bytes: vec![1] }, ArrivalRecord { bytes: vec![2] }]);
    let reports = leader_reports(holds, put).expect("links for all");
    let firsts: Vec<Option<Vec<u8>>> = reports.iter().map(|r| slot_bytes(&r.slots[0])).collect();
    assert_eq!(firsts, vec![Some(vec![1]), Some(vec![0xAA]), Some(vec![2])]);
    assert!(reports.iter().all(|r| r.slots.len() == 1));
}

#[test]
fn a_leader_that_refused_the_put_or_returned_too_few_records_waits() {
    let holds = || vec![LeaderHolds::Nothing, LeaderHolds::Nothing];
    assert!(leader_reports(holds(), Err("busy".to_string())).is_none());
    assert!(leader_reports(holds(), Ok(vec![ArrivalRecord { bytes: vec![1] }])).is_none());
    assert!(leader_reports(vec![LeaderHolds::Unread], Ok(vec![])).is_none());
    // Nothing lacking: the put's answer is never read.
    let held = leader_reports(
        vec![LeaderHolds::Record(ArrivalRecord { bytes: vec![7] })],
        Err("never sent".to_string()),
    )
    .expect("held");
    assert_eq!(slot_bytes(&held[0].slots[0]), Some(vec![7]));
}

#[test]
fn a_silent_seat_closes_every_chain_written_there() {
    let slots = seat_slots(Err("timeout".to_string()), 3);
    assert_eq!(slots.len(), 3);
    assert!(slots.iter().all(|s| matches!(s, ChainSlot::NoResponse)));
    let answered = seat_slots(Ok(vec![ArrivalRecord { bytes: vec![4] }]), 3);
    assert_eq!(answered.iter().map(slot_bytes).collect::<Vec<_>>(), vec![Some(vec![4])]);
    let appended = append_slots(leader_unanswered(2), vec![link(5)]);
    assert_eq!(appended[0].slots.iter().map(slot_bytes).collect::<Vec<_>>(), vec![None, Some(vec![5])]);
    assert_eq!(appended[1].slots.iter().map(slot_bytes).collect::<Vec<_>>(), vec![None]);
}

#[test]
fn cycles_and_mirrors() {
    assert!(holds_any(&Some(vec![vec![1]])));
    assert!(!holds_any(&Some(vec![])));
    assert!(!holds_any(&None));
    assert!(any_cycle_closed(&[None, Some(4)]));
    assert!(!any_cycle_closed(&[None, None]));
    assert_eq!(leader_view(1, Some(3), Some(8)), Some(8));
    assert_eq!(leader_view(0, Some(3), Some(8)), None);
    assert_eq!(leader_view(2, None, Some(8)), None);
    assert_eq!(parent_cycle(5), Some(4));
    assert_eq!(parent_cycle(1), None);
    let members = vec![b"a".to_vec(), b"b".to_vec(), b"c".to_vec()];
    assert_eq!(others_of(&members, b"b"), vec![b"a".to_vec(), b"c".to_vec()]);
}

#[test]
fn a_stranger_is_named_in_the_refusal() {
    let seats = NodeSeats::new(vec![b"dsm-node-1".to_vec(), b"dsm-node-2".to_vec()]);
    assert_eq!(seats.member(b"dsm-node-2"), Ok(1));
    assert_eq!(seats.members(), vec![b"dsm-node-1".to_vec(), b"dsm-node-2".to_vec()]);
    assert_eq!(seats.member(b"dsm-node-9"), Err("dsm-node-9 is not a member of the set".to_string()));
    assert_eq!(
        seats.member(&[0x66, 0xFF, 0x6F]),
        Err("f\u{FFFD}o is not a member of the set".to_string())
    );
}

#[test]
fn a_recorded_write_must_name_the_cells_route() {
    assert!(dsm_sdk::route_seats::check_recorded_route(&[1; 32], &[2; 32], &[1; 32], &[2; 32]).is_ok());
    let e = dsm_sdk::route_seats::check_recorded_route(&[1; 32], &[2; 32], &[1; 32], &[3; 32]).unwrap_err();
    assert_eq!(e.kind(), dsm_sdk::error::ErrorKind::Storage);
    assert_eq!(e.detail(), "a recorded write at this cell names another route");
    assert!(dsm_sdk::route_seats::check_recorded_route(&[9; 32], &[2; 32], &[1; 32], &[2; 32]).is_err());
}
