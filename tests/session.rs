use serial_humidity::session::{publish, Action, ReadEvent, ReaderSession, Termination};

fn continued(a: Action) -> Vec<String> {
    match a {
        Action::Continue(v) => v,
        Action::Stop(t) => panic!("stopped: {:?}", t),
    }
}

fn stopped(a: Action) -> Termination {
    match a {
        Action::Continue(v) => panic!("continued: {:?}", v),
        Action::Stop(t) => t,
    }
}

#[test]
fn new_session_is_empty() {
    let s = ReaderSession::new();
    assert_eq!(s.residual(), "");
    assert_eq!(s.timeouts(), 0);
    assert_eq!(s.ended(), None);
}

#[test]
fn five_timeouts_are_tolerated_and_the_sixth_ends() {
    let mut s = ReaderSession::new();
    for i in 1..=5u64 {
        assert!(continued(s.on_read(ReadEvent::TimedOut)).is_empty());
        assert_eq!(s.timeouts(), i);
    }
    assert_eq!(stopped(s.on_read(ReadEvent::TimedOut)), Termination::Silent);
    assert_eq!(s.ended(), Some(Termination::Silent));
}

#[test]
fn bytes_reset_the_timeout_count() {
    let mut s = ReaderSession::new();
    for _ in 0..4 {
        continued(s.on_read(ReadEvent::TimedOut));
    }
    let v = continued(s.on_read(ReadEvent::Data(b"h:50%".to_vec())));
    assert_eq!(v, vec!["50".to_string()]);
    assert_eq!(s.timeouts(), 0);
    for _ in 0..5 {
        continued(s.on_read(ReadEvent::TimedOut));
    }
    assert_eq!(stopped(s.on_read(ReadEvent::TimedOut)), Termination::Silent);
}

#[test]
fn empty_read_keeps_the_timeout_count() {
    let mut s = ReaderSession::new();
    for _ in 0..3 {
        continued(s.on_read(ReadEvent::TimedOut));
    }
    assert!(continued(s.on_read(ReadEvent::Nothing)).is_empty());
    assert!(continued(s.on_read(ReadEvent::Data(Vec::new()))).is_empty());
    assert_eq!(s.timeouts(), 3);
    for _ in 0..2 {
        continued(s.on_read(ReadEvent::TimedOut));
    }
    assert_eq!(stopped(s.on_read(ReadEvent::TimedOut)), Termination::Silent);
}

#[test]
fn failure_ends_at_once() {
    let mut s = ReaderSession::new();
    assert_eq!(stopped(s.on_read(ReadEvent::Failed)), Termination::Failed);
    let mut s = ReaderSession::new();
    for _ in 0..5 {
        continued(s.on_read(ReadEvent::TimedOut));
    }
    assert_eq!(stopped(s.on_read(ReadEvent::Failed)), Termination::Failed);
    assert_eq!(s.timeouts(), 5);
}

#[test]
fn ended_session_stays_ended() {
    let mut s = ReaderSession::new();
    stopped(s.on_read(ReadEvent::Failed));
    assert_eq!(stopped(s.on_read(ReadEvent::Data(b"h:1%".to_vec()))), Termination::Failed);
    assert_eq!(s.residual(), "");
}

#[test]
fn records_across_reads_are_joined() {
    let mut s = ReaderSession::new();
    assert!(continued(s.on_read(ReadEvent::Data(b"Humidity: 6".to_vec()))).is_empty());
    assert_eq!(s.residual(), "Humidity: 6");
    let v = continued(s.on_read(ReadEvent::Data(b"1%Humidity: 62%Hu".to_vec())));
    assert_eq!(v, vec!["61".to_string(), "62".to_string()]);
    assert_eq!(s.residual(), "Hu");
}

#[test]
fn publish_keeps_the_last_value() {
    let mut latest = "old".to_string();
    publish(&mut latest, &Vec::new());
    assert_eq!(latest, "old");
    publish(&mut latest, &vec!["61".to_string(), "62".to_string()]);
    assert_eq!(latest, "62");
}
