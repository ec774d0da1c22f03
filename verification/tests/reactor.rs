use std::sync::atomic::{AtomicUsize, Ordering};
use std::sync::Arc;
use std::task::{Wake, Waker};

use hooch::executor::Status;
use hooch::reactor::{Reactor, ReactorTag, TagType, Wakeups, WAKER_TOKEN};
use hooch::sync::mpsc::bounded_channel::RecvPoll;
use hooch::sync::mpsc::BoundedReceiver;

struct CountingWaker(AtomicUsize);

impl Wake for CountingWaker {
    fn wake(self: Arc<Self>) {
        self.0.fetch_add(1, Ordering::SeqCst);
    }
    fn wake_by_ref(self: &Arc<Self>) {
        self.0.fetch_add(1, Ordering::SeqCst);
    }
}

fn counting_waker() -> (Arc<CountingWaker>, Waker) {
    let inner = Arc::new(CountingWaker(AtomicUsize::new(0)));
    let waker = Waker::from(Arc::clone(&inner));
    (inner, waker)
}

#[test]
fn waker_token_is_zero() {
    assert_eq!(Reactor::waker_token(), 0);
    assert_eq!(WAKER_TOKEN, 0);
}

#[test]
fn reactor_tag_keeps_its_number() {
    let tag = ReactorTag::new(42);
    assert_eq!(tag.id(), 42);
    assert_eq!(tag, ReactorTag::new(42));
}

fn wake_channels(reactor: &Reactor, tags: &[ReactorTag]) {
    for tag in tags {
        if let Some(w) = reactor.channel_waker(*tag) {
            w.wake_by_ref();
        }
    }
}

#[test]
fn poll_before_event_is_pending_then_ready_after_event() {
    let mut reactor = Reactor::new();
    let (count, waker) = counting_waker();
    let (ready, leftover) = reactor.poll(5, waker.clone());
    assert!(!ready);
    assert!(leftover.is_none());
    let (ready, leftover) = reactor.poll(5, waker.clone());
    assert!(!ready);
    assert!(leftover.is_some());
    assert_eq!(count.0.load(Ordering::SeqCst), 0);
    let to_wake = reactor.handle_io_event(5).expect("a task awaited the source");
    assert!(to_wake.will_wake(&waker));
    to_wake.wake();
    assert_eq!(count.0.load(Ordering::SeqCst), 1);
    let (ready, leftover) = reactor.poll(5, waker.clone());
    assert!(ready);
    assert!(leftover.is_some());
    // The source is forgotten after it was found ready.
    assert!(!reactor.poll(5, waker.clone()).0);
}

#[test]
fn event_before_poll_is_ready_without_wake() {
    let mut reactor = Reactor::new();
    let (count, waker) = counting_waker();
    assert!(reactor.handle_io_event(9).is_none());
    assert!(reactor.poll(9, waker).0);
    assert_eq!(count.0.load(Ordering::SeqCst), 0);
}

#[test]
fn new_poller_replaces_a_different_waker() {
    let mut reactor = Reactor::new();
    let (count_a, waker_a) = counting_waker();
    let (count_b, waker_b) = counting_waker();
    assert!(reactor.poll(6, waker_a).1.is_none());
    let (ready, leftover) = reactor.poll(6, waker_b);
    assert!(!ready);
    leftover.expect("the replaced waker comes back").wake();
    assert_eq!(count_a.0.load(Ordering::SeqCst), 1);
    reactor.handle_io_event(6).unwrap().wake();
    assert_eq!(count_b.0.load(Ordering::SeqCst), 1);
}

#[test]
fn waker_event_wakes_registered_channels_in_order() {
    let mut reactor = Reactor::new();
    let (count_a, waker_a) = counting_waker();
    let (count_b, waker_b) = counting_waker();
    assert!(reactor.store_waker_channel(ReactorTag::new(1), waker_a).is_none());
    assert!(reactor.store_waker_channel(ReactorTag::new(2), waker_b).is_none());
    reactor.register_reactor_tag(ReactorTag::new(2));
    reactor.register_reactor_tag(ReactorTag::new(3));
    reactor.register_reactor_tag(ReactorTag::new(1));
    reactor.register_reactor_tag(ReactorTag::new(2));
    let woken = reactor.handle_waker_event();
    assert_eq!(
        woken,
        vec![ReactorTag::new(2), ReactorTag::new(1), ReactorTag::new(2)]
    );
    wake_channels(&reactor, &woken);
    assert_eq!(count_a.0.load(Ordering::SeqCst), 1);
    assert_eq!(count_b.0.load(Ordering::SeqCst), 2);
    assert!(reactor.handle_waker_event().is_empty());
    assert!(reactor.channel_waker(ReactorTag::new(3)).is_none());
}

#[test]
fn storing_again_hands_back_the_old_waker() {
    let mut reactor = Reactor::new();
    let (count_a, waker_a) = counting_waker();
    let (_, waker_b) = counting_waker();
    reactor.store_waker_channel(ReactorTag::new(7), waker_a);
    match reactor.store_waker_channel(ReactorTag::new(7), waker_b) {
        Some(TagType::Channel(old)) => old.wake(),
        None => panic!("expected the old waker"),
    }
    assert_eq!(count_a.0.load(Ordering::SeqCst), 1);
}

#[test]
fn removed_tag_is_not_woken() {
    let mut reactor = Reactor::new();
    let (count, waker) = counting_waker();
    reactor.store_waker_channel(ReactorTag::new(4), waker);
    assert!(reactor.remove_tag(ReactorTag::new(4)).is_some());
    assert!(reactor.remove_tag(ReactorTag::new(4)).is_none());
    reactor.register_reactor_tag(ReactorTag::new(4));
    match reactor.handle_event(WAKER_TOKEN) {
        Wakeups::Channels(tags) => assert!(tags.is_empty()),
        Wakeups::Source(_) => panic!("expected channels"),
    }
    assert_eq!(count.0.load(Ordering::SeqCst), 0);
    assert!(!reactor.is_tag_buffer_full());
}

#[test]
fn handle_event_dispatches_io_tokens() {
    let mut reactor = Reactor::new();
    let (count, waker) = counting_waker();
    assert!(!reactor.poll(3, waker.clone()).0);
    match reactor.handle_event(3) {
        Wakeups::Source(Some(w)) => w.wake(),
        _ => panic!("expected the awaiting waker"),
    }
    assert_eq!(count.0.load(Ordering::SeqCst), 1);
    assert!(reactor.poll(3, waker).0);
}

#[test]
fn status_and_tag_type_are_plain_enums() {
    let (_, waker) = counting_waker();
    let status = Status::Awaited(waker.clone());
    assert!(matches!(status, Status::Awaited(_)));
    assert!(matches!(Status::Happened, Status::Happened));
    let tag = TagType::Channel(waker);
    assert!(matches!(tag, TagType::Channel(_)));
}

#[test]
fn receiver_parks_until_a_value_is_counted() {
    let mut reactor = Reactor::new();
    let (count, waker) = counting_waker();
    let (tx, rx) = std::sync::mpsc::sync_channel::<i32>(4);
    let queue_cnt = Arc::new(AtomicUsize::new(0));
    let receiver = BoundedReceiver::new(rx, Arc::clone(&queue_cnt), ReactorTag::new(11));
    assert_eq!(receiver.reactor_tag(), ReactorTag::new(11));

    assert!(matches!(receiver.poll_recv(), RecvPoll::Pending));
    reactor.store_waker_channel(receiver.reactor_tag(), waker.clone());

    tx.send(5).unwrap();
    queue_cnt.fetch_add(1, Ordering::SeqCst);
    reactor.register_reactor_tag(ReactorTag::new(11));
    let woken = reactor.handle_waker_event();
    assert_eq!(woken, vec![ReactorTag::new(11)]);
    wake_channels(&reactor, &woken);
    assert_eq!(count.0.load(Ordering::SeqCst), 1);

    match receiver.poll_recv() {
        RecvPoll::Ready(Ok(v)) => assert_eq!(v, 5),
        _ => panic!("expected a value"),
    }
    assert_eq!(queue_cnt.load(Ordering::SeqCst), 0);
    assert!(receiver.try_recv().is_err());
}

#[test]
fn receiver_reports_error_when_count_has_no_value() {
    let (tx, rx) = std::sync::mpsc::sync_channel::<i32>(1);
    drop(tx);
    let receiver = BoundedReceiver::new(rx, Arc::new(AtomicUsize::new(1)), ReactorTag::new(0));
    assert!(matches!(receiver.poll_recv(), RecvPoll::Ready(Err(_))));
}

#[test]
fn counted_poll_parks_only_when_nothing_is_counted() {
    let (tx, rx) = std::sync::mpsc::sync_channel::<i32>(2);
    let queue_cnt = Arc::new(AtomicUsize::new(1));
    let receiver = BoundedReceiver::new(rx, Arc::clone(&queue_cnt), ReactorTag::new(21));

    assert!(matches!(receiver.poll_recv_counted(0), RecvPoll::Pending));
    tx.send(8).unwrap();
    match receiver.poll_recv_counted(1) {
        RecvPoll::Ready(Ok(v)) => assert_eq!(v, 8),
        _ => panic!("expected a value"),
    }
    assert_eq!(queue_cnt.load(Ordering::SeqCst), 0);
    assert!(matches!(receiver.poll_recv_counted(3), RecvPoll::Ready(Err(_))));
}

#[test]
fn poll_with_keeps_or_replaces_by_the_answer() {
    let mut reactor = Reactor::new();
    let (count_a, waker_a) = counting_waker();
    let (count_b, waker_b) = counting_waker();
    assert!(reactor.poll_with(2, waker_a, false).1.is_none());
    // Told it is the same task: the stored waker stays, the new one comes back.
    let (ready, back) = reactor.poll_with(2, waker_b.clone(), true);
    assert!(!ready);
    assert!(back.unwrap().will_wake(&waker_b));
    reactor.handle_io_event(2).unwrap().wake();
    assert_eq!(count_a.0.load(Ordering::SeqCst), 1);
    assert_eq!(count_b.0.load(Ordering::SeqCst), 0);
    assert!(reactor.poll_with(2, waker_b.clone(), false).0);

    let (_, waker_c) = counting_waker();
    assert!(reactor.poll_with(4, waker_c, false).1.is_none());
    // Told it is another task: the new waker is stored, the old one comes back.
    let (ready, back) = reactor.poll_with(4, waker_b, false);
    assert!(!ready);
    assert!(back.is_some());
    reactor.handle_io_event(4).unwrap().wake();
    assert_eq!(count_b.0.load(Ordering::SeqCst), 1);
}
