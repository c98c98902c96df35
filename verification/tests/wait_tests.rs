use std::collections::HashSet;

use standby::commands::wait::{
    execute, pid_set, probe_list, wait_round, wait_step, PidStatus, WaitArgs, WaitStep,
};
use standby::errors::StandbyError;
use standby::time::Duration;

#[test]
fn at_least_one_pid() {
    match execute(&WaitArgs { pids: vec![], timeout: Some("5".to_string()) }) {
        Err(StandbyError::InvalidArgument(m)) => assert_eq!(m, "At least one PID must be specified"),
        _ => panic!("expected an invalid argument"),
    }
}

#[test]
fn plan_with_timeout() {
    let p = execute(&WaitArgs { pids: vec![3, 1, 3, 2, 1], timeout: Some("30s".to_string()) }).unwrap();
    assert_eq!(p.pids, HashSet::from([1, 2, 3]));
    assert_eq!(p.timeout, Some(Duration::from_secs(30)));
    assert!(execute(&WaitArgs { pids: vec![1], timeout: Some("later".to_string()) }).is_err());
    assert_eq!(execute(&WaitArgs { pids: vec![1], timeout: None }).unwrap().timeout, None);
}

#[test]
fn the_set_of_pids() {
    assert_eq!(pid_set(&vec![5, 5, 4, 5, 3, 4]), HashSet::from([3, 4, 5]));
    assert!(pid_set(&vec![]).is_empty());
}

#[test]
fn each_remaining_pid_is_probed_once() {
    let set = HashSet::from([7, 8, 9, 10]);
    let mut probed = probe_list(&set);
    assert_eq!(probed.len(), 4);
    probed.sort();
    assert_eq!(probed, vec![7, 8, 9, 10]);
    assert!(probe_list(&HashSet::new()).is_empty());
}

#[test]
fn a_round_keeps_the_living() {
    let mut remaining = HashSet::from([10, 11, 12]);
    let go_on = wait_round(
        &mut remaining,
        &vec![10, 11, 12],
        &vec![PidStatus::Ended, PidStatus::Alive, PidStatus::Gone],
    );
    assert_eq!(remaining, HashSet::from([11]));
    assert!(go_on);
    let mut remaining = HashSet::from([10, 11]);
    let go_on = wait_round(&mut remaining, &vec![10, 11], &vec![PidStatus::Gone, PidStatus::Gone]);
    assert!(remaining.is_empty());
    assert!(!go_on);
    // a process that was not probed stays
    let mut remaining = HashSet::from([1, 2]);
    let go_on = wait_round(&mut remaining, &vec![2], &vec![PidStatus::Ended]);
    assert_eq!(remaining, HashSet::from([1]));
    assert!(go_on);
}

#[test]
fn top_of_a_round() {
    assert!(matches!(wait_step(0, None, Duration::from_secs(0)), WaitStep::Done));
    assert!(matches!(wait_step(2, None, Duration::from_secs(100)), WaitStep::Probe));
    assert!(matches!(wait_step(2, Some(Duration::from_secs(3)), Duration::from_secs(2)), WaitStep::Probe));
    match wait_step(2, Some(Duration::from_secs(3)), Duration::from_secs(3)) {
        WaitStep::Stop(StandbyError::ProcessError(m)) => assert_eq!(m, "Timeout waiting for processes"),
        _ => panic!("expected a timeout"),
    }
}
