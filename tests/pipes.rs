use pipeserve::notify::{completion_pair, DropSender};
use pipeserve::pipe::is_held;
use pipeserve::registry::{holder_marks, PipeRegistry};
use pipeserve::relay::{post_step, PostEvent, PostState};
use std::sync::Arc;
use tokio::sync::mpsc::error::TrySendError;
use tokio::sync::oneshot::error::TryRecvError;

struct Body {
    bytes: Vec<u8>,
    on_drop: DropSender,
}

impl Drop for Body {
    fn drop(&mut self) {
        self.on_drop.fire();
    }
}

fn body(bytes: &[u8]) -> (Body, tokio::sync::oneshot::Receiver<()>) {
    let (on_drop, finished) = completion_pair();
    (Body { bytes: bytes.to_vec(), on_drop }, finished)
}

#[test]
fn fire_signals_once() {
    let (mut d, mut finished) = completion_pair();
    assert_eq!(finished.try_recv(), Err(TryRecvError::Empty));
    assert!(d.fire());
    assert!(!d.fire());
    assert_eq!(finished.try_recv(), Ok(()));
}

#[test]
fn held_counts() {
    assert!(!is_held(1, 1));
    assert!(is_held(2, 1));
    assert!(is_held(1, 3));
}

#[test]
fn same_name_shares_pipe_while_held() {
    let mut reg: PipeRegistry<Body> = PipeRegistry::new();
    let a = reg.acquire("demo".to_string());
    let b = reg.acquire("demo".to_string());
    assert!(Arc::ptr_eq(&a.sender, &b.sender));
    assert!(Arc::ptr_eq(&a.receiver, &b.receiver));
    assert_eq!(reg.names(), vec!["demo".to_string()]);
}

#[test]
fn idle_name_is_swept_on_next_access() {
    let mut reg: PipeRegistry<Body> = PipeRegistry::new();
    let p = reg.acquire("demo".to_string());
    drop(p);
    assert!(reg.contains(&"demo".to_string()));
    let _q = reg.acquire("other".to_string());
    assert!(!reg.contains(&"demo".to_string()));
    assert!(reg.contains(&"other".to_string()));
}

#[test]
fn held_name_survives_sweep() {
    let mut reg: PipeRegistry<Body> = PipeRegistry::new();
    let p = reg.acquire("a".to_string());
    let q = reg.acquire("b".to_string());
    drop(q);
    reg.pipecleaner();
    assert_eq!(reg.names(), vec!["a".to_string()]);
    let p2 = reg.acquire("a".to_string());
    assert!(Arc::ptr_eq(&p.sender, &p2.sender));
}

#[test]
fn retain_by_marks() {
    let mut reg: PipeRegistry<Body> = PipeRegistry::new();
    drop(reg.acquire("x".to_string()));
    drop(reg.acquire_with("y".to_string(), &vec![true]));
    drop(reg.acquire_with("z".to_string(), &vec![true, true]));
    assert_eq!(reg.names().len(), 3);
    reg.retain_held(&vec![true, false, true]);
    assert!(reg.contains(&"x".to_string()));
    assert!(!reg.contains(&"y".to_string()));
    assert!(reg.contains(&"z".to_string()));
}

#[test]
fn acquire_with_replaces_unheld_pipe() {
    let mut reg: PipeRegistry<Body> = PipeRegistry::new();
    let first = reg.acquire("n".to_string());
    let again = reg.acquire_with("n".to_string(), &vec![false]);
    assert!(!Arc::ptr_eq(&first.sender, &again.sender));
    let kept = reg.acquire_with("n".to_string(), &vec![true]);
    assert!(Arc::ptr_eq(&again.sender, &kept.sender));
}

#[test]
fn relayed_bytes_arrive_unchanged() {
    let mut reg: PipeRegistry<Body> = PipeRegistry::new();
    let payload: Vec<u8> = (0..=255u8).chain(0..=255u8).collect();
    let sender = reg.acquire("n".to_string()).sender;
    let receiver = reg.acquire("n".to_string()).receiver;
    let (b, mut finished) = body(&payload);
    sender.try_send(b).ok().expect("room for one body");
    let got = receiver.try_lock().unwrap().try_recv().unwrap();
    assert_eq!(got.bytes, payload);
    assert_eq!(finished.try_recv(), Err(TryRecvError::Empty));
    drop(got);
    assert_eq!(finished.try_recv(), Ok(()));
}

#[test]
fn post_waits_until_get_finishes() {
    let mut reg: PipeRegistry<Body> = PipeRegistry::new();
    let sender = reg.acquire("demo".to_string()).sender;
    let (b, mut finished) = body(b"hello world");
    let mut state = PostState::Offering;
    state = post_step(state, PostEvent::Offered(sender.try_send(b).is_ok()));
    assert_eq!(state, PostState::Draining);
    assert_eq!(finished.try_recv(), Err(TryRecvError::Empty));
    let receiver = reg.acquire("demo".to_string()).receiver;
    let got = receiver.try_lock().unwrap().try_recv().unwrap();
    assert_eq!(got.bytes, b"hello world".to_vec());
    assert_eq!(finished.try_recv(), Err(TryRecvError::Empty));
    drop(got);
    state = post_step(state, PostEvent::Drained(finished.try_recv().is_ok()));
    assert_eq!(state, PostState::Responded(200));
}

#[test]
fn second_body_waits_for_the_first() {
    let mut reg: PipeRegistry<Body> = PipeRegistry::new();
    let pipe = reg.acquire("n".to_string());
    let (b1, _f1) = body(b"one");
    let (b2, _f2) = body(b"two");
    pipe.sender.try_send(b1).ok().expect("room for one body");
    let b2 = match pipe.sender.try_send(b2) {
        Err(TrySendError::Full(b)) => b,
        _ => panic!("a second body must wait"),
    };
    let first = pipe.receiver.try_lock().unwrap().try_recv().unwrap();
    assert_eq!(first.bytes, b"one".to_vec());
    pipe.sender.try_send(b2).ok().expect("room once the first is taken");
    let second = pipe.receiver.try_lock().unwrap().try_recv().unwrap();
    assert_eq!(second.bytes, b"two".to_vec());
}

#[test]
fn distinct_names_do_not_block_each_other() {
    let mut reg: PipeRegistry<Body> = PipeRegistry::new();
    let a = reg.acquire("a".to_string());
    let b = reg.acquire("b".to_string());
    let (x, _fx) = body(b"x");
    let (y, _fy) = body(b"y");
    a.sender.try_send(x).ok().expect("room on a");
    b.sender.try_send(y).ok().expect("room on b");
    assert_eq!(b.receiver.try_lock().unwrap().try_recv().unwrap().bytes, b"y".to_vec());
    assert_eq!(a.receiver.try_lock().unwrap().try_recv().unwrap().bytes, b"x".to_vec());
}

#[test]
fn post_without_get_stays_pending() {
    let mut reg: PipeRegistry<Body> = PipeRegistry::new();
    let pipe = reg.acquire("lonely".to_string());
    let (b, mut finished) = body(b"data");
    pipe.sender.try_send(b).ok().expect("room for one body");
    for _ in 0..1000 {
        assert_eq!(finished.try_recv(), Err(TryRecvError::Empty));
    }
}

#[test]
fn marks_from_handle_counts() {
    assert_eq!(
        holder_marks(&vec![(1, 1), (2, 1), (1, 2), (3, 4)]),
        vec![false, true, true, true]
    );
    assert_eq!(holder_marks(&vec![]), Vec::<bool>::new());
}
