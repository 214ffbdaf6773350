use application_layer::error::JobError;
use application_layer::registry::{candidate_ports, enroll};

#[test]
fn ports_are_tried_in_ascending_order() {
    assert_eq!(
        candidate_ports(8000, 8010),
        vec![8000, 8001, 8002, 8003, 8004, 8005, 8006, 8007, 8008, 8009]
    );
    assert_eq!(candidate_ports(8000, 8001), vec![8000]);
}

#[test]
fn an_empty_or_reversed_range_has_no_ports() {
    assert_eq!(candidate_ports(8000, 8000), Vec::<u64>::new());
    assert_eq!(candidate_ports(8010, 8000), Vec::<u64>::new());
}

#[test]
fn the_range_may_end_at_the_largest_port_number() {
    assert_eq!(
        candidate_ports(u64::MAX - 2, u64::MAX),
        vec![u64::MAX - 2, u64::MAX - 1]
    );
}

#[test]
fn opened_sessions_keep_the_order_in_which_they_were_tried() {
    let roster = enroll(&vec![true, false, true, true, false]).unwrap();
    assert_eq!(roster.nodes, vec![0, 2, 3]);
    assert_eq!(
        roster.refused,
        vec![JobError::NodeConnectFailed(1), JobError::NodeConnectFailed(4)]
    );
}

#[test]
fn all_sessions_open() {
    let roster = enroll(&vec![true, true]).unwrap();
    assert_eq!(roster.nodes, vec![0, 1]);
    assert_eq!(roster.refused, Vec::<JobError>::new());
}

#[test]
fn no_session_means_no_nodes_available() {
    assert_eq!(
        enroll(&vec![false, false, false]).unwrap_err(),
        JobError::NoNodesAvailable
    );
    assert_eq!(enroll(&Vec::new()).unwrap_err(), JobError::NoNodesAvailable);
}
