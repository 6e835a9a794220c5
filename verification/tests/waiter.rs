use dekit::process::unix_processes_waiter::{Settled, UnixProcessesWaiter, WaitReply};

#[test]
fn a_process_that_exited_already_is_reported_at_once() {
    let mut w = UnixProcessesWaiter::new();
    assert_eq!(w.wait_for(10, 1, WaitReply::Exited(256)), Some((1, 256)));
    assert!(w.pids().is_empty());
}

#[test]
fn a_listener_is_called_once() {
    let mut w = UnixProcessesWaiter::new();
    assert_eq!(w.wait_for(10, 1, WaitReply::StillRunning), None);
    assert_eq!(w.wait_for(11, 2, WaitReply::Failed { no_child: true }), None);
    let mut pids = w.pids();
    pids.sort();
    assert_eq!(pids, [10, 11]);
    assert_eq!(w.settle(10, WaitReply::StillRunning), Settled { fire: None, log: false });
    assert_eq!(w.settle(10, WaitReply::Exited(0)), Settled { fire: Some((1, 0)), log: false });
    assert_eq!(w.settle(10, WaitReply::Exited(0)), Settled { fire: None, log: false });
    assert_eq!(w.pids(), [11]);
}

#[test]
fn a_process_that_cannot_be_waited_for_is_forgotten() {
    let mut w = UnixProcessesWaiter::new();
    w.wait_for(10, 1, WaitReply::StillRunning);
    w.wait_for(11, 2, WaitReply::StillRunning);
    assert_eq!(
        w.settle(10, WaitReply::Failed { no_child: true }),
        Settled { fire: None, log: false }
    );
    assert_eq!(
        w.settle(11, WaitReply::Failed { no_child: false }),
        Settled { fire: None, log: true }
    );
    assert!(w.pids().is_empty());
}

#[test]
fn a_second_listener_takes_the_place_of_the_first() {
    let mut w = UnixProcessesWaiter::new();
    w.wait_for(10, 1, WaitReply::StillRunning);
    w.wait_for(10, 7, WaitReply::StillRunning);
    assert_eq!(w.settle(10, WaitReply::Exited(9)).fire, Some((7, 9)));
}
