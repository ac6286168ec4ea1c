use task_runner::model::TaskStatus;
use task_runner::notify::{Notifier, RecvOutcome, StatusEvent};

fn ev(id: i32, status: TaskStatus) -> StatusEvent {
    StatusEvent { id, status }
}

#[test]
fn subscribers_receive_events_published_after_they_attach() {
    let mut n = Notifier::new(8);
    n.publish(ev(1, TaskStatus::Running));
    let h = n.subscribe();
    // nothing is replayed
    assert_eq!(n.recv(h), RecvOutcome::Empty);
    n.publish(ev(1, TaskStatus::Success));
    n.publish(ev(2, TaskStatus::Running));
    assert_eq!(n.recv(h), RecvOutcome::Next(ev(1, TaskStatus::Success)));
    assert_eq!(n.recv(h), RecvOutcome::Next(ev(2, TaskStatus::Running)));
    assert_eq!(n.recv(h), RecvOutcome::Empty);
}

#[test]
fn every_subscriber_sees_every_event() {
    let mut n = Notifier::new(8);
    let a = n.subscribe();
    let b = n.subscribe();
    n.publish(ev(3, TaskStatus::Pending));
    assert_eq!(n.recv(a), RecvOutcome::Next(ev(3, TaskStatus::Pending)));
    assert_eq!(n.recv(b), RecvOutcome::Next(ev(3, TaskStatus::Pending)));
}

#[test]
fn a_lagging_subscriber_loses_the_oldest_events_and_is_told() {
    let mut n = Notifier::new(2);
    let h = n.subscribe();
    n.publish(ev(1, TaskStatus::Running));
    n.publish(ev(1, TaskStatus::Success));
    n.publish(ev(2, TaskStatus::Running));
    // capacity 2: the first event was dropped to make room
    assert_eq!(n.recv(h), RecvOutcome::Lagged(1));
    assert_eq!(n.recv(h), RecvOutcome::Next(ev(1, TaskStatus::Success)));
    assert_eq!(n.recv(h), RecvOutcome::Next(ev(2, TaskStatus::Running)));
    assert_eq!(n.recv(h), RecvOutcome::Empty);
}

#[test]
fn a_slow_subscriber_never_blocks_a_publisher() {
    let mut n = Notifier::new(1);
    let h = n.subscribe();
    for i in 0..5 {
        n.publish(ev(i, TaskStatus::Pending));
    }
    assert_eq!(n.recv(h), RecvOutcome::Lagged(4));
    assert_eq!(n.recv(h), RecvOutcome::Next(ev(4, TaskStatus::Pending)));
}
