use dashmap::DashMap;
use infercache::coalescing::{CoalescingEngine, CoalescingGuard, CoalescingSlot};

fn run<F: std::future::Future>(future: F) -> F::Output {
    tokio::runtime::Builder::new_current_thread()
        .build()
        .unwrap()
        .block_on(future)
}

#[test]
fn test_request_coalescing_thundering_herd() {
    run(async {
        let in_flight = DashMap::new();
        let mut engine = CoalescingEngine::new(in_flight);

        let key = "gpt-4o-mini:sample_prompt_hash".to_string();

        // Request 1: should acquire Leader
        let slot1 = engine.acquire(key.clone());
        let (tx, leader_key) = match slot1 {
            CoalescingSlot::Leader { sender, key } => (sender, key),
            _ => panic!("Expected Leader slot for primary request"),
        };

        // Request 2: duplicate request for same key should acquire Subscriber
        let slot2 = engine.acquire(key.clone());
        let mut rx = match slot2 {
            CoalescingSlot::Subscriber { receiver, .. } => receiver,
            _ => panic!("Expected Subscriber slot for secondary request"),
        };

        // Request 3: third duplicate request should also acquire Subscriber
        let slot3 = engine.acquire(key.clone());
        let mut rx2 = match slot3 {
            CoalescingSlot::Subscriber { receiver, .. } => receiver,
            _ => panic!("Expected Subscriber slot for tertiary request"),
        };

        // Send chunks through leader
        tx.send("data: chunk 1\n\n".to_string()).unwrap();
        tx.send("data: chunk 2\n\n".to_string()).unwrap();

        // Verify subscriber 1 received both chunks
        assert_eq!(rx.recv().await.unwrap(), "data: chunk 1\n\n");
        assert_eq!(rx.recv().await.unwrap(), "data: chunk 2\n\n");

        // Verify subscriber 2 received both chunks
        assert_eq!(rx2.recv().await.unwrap(), "data: chunk 1\n\n");
        assert_eq!(rx2.recv().await.unwrap(), "data: chunk 2\n\n");

        // Release key
        engine.release(&leader_key);

        // After release, new request should acquire a new Leader slot
        let slot_new = engine.acquire(key.clone());
        match slot_new {
            CoalescingSlot::Leader { .. } => {}
            _ => panic!("Expected new Leader slot after release"),
        }
    });
}

#[test]
fn keys_do_not_share_channels() {
    let mut engine = CoalescingEngine::new(DashMap::new());
    let first = match engine.acquire("a".to_string()) {
        CoalescingSlot::Leader { sender, key } => {
            assert_eq!(key, "a");
            sender
        }
        _ => panic!("a leads"),
    };
    let second = match engine.acquire("b".to_string()) {
        CoalescingSlot::Leader { sender, .. } => sender,
        _ => panic!("b leads"),
    };
    let mut listens_to_b = match engine.acquire("b".to_string()) {
        CoalescingSlot::Subscriber { receiver, key } => {
            assert_eq!(key, "b");
            receiver
        }
        _ => panic!("b is in flight"),
    };
    assert!(first.send("for a".to_string()).is_err());
    assert_eq!(second.send("for b".to_string()).unwrap(), 1);
    assert_eq!(listens_to_b.try_recv().unwrap(), "for b");
    assert!(listens_to_b.try_recv().is_err());
}

#[test]
fn channel_holds_128_chunks() {
    let mut engine = CoalescingEngine::new(DashMap::new());
    let sender = match engine.acquire("k".to_string()) {
        CoalescingSlot::Leader { sender, .. } => sender,
        _ => panic!("leads"),
    };
    let mut receiver = match engine.acquire("k".to_string()) {
        CoalescingSlot::Subscriber { receiver, .. } => receiver,
        _ => panic!("listens"),
    };
    for i in 0..129 {
        sender.send(format!("{}", i)).unwrap();
    }
    // One chunk more than the channel holds: the oldest is lost.
    assert!(receiver.try_recv().is_err());
    assert_eq!(receiver.try_recv().unwrap(), "1");
}

#[test]
fn engine_goes_on_from_requests_in_flight() {
    let in_flight = DashMap::new();
    let (sender, _) = tokio::sync::broadcast::channel::<String>(4);
    in_flight.insert("k".to_string(), sender.clone());
    let mut engine = CoalescingEngine::new(in_flight);
    let mut receiver = match engine.acquire("k".to_string()) {
        CoalescingSlot::Subscriber { receiver, .. } => receiver,
        _ => panic!("k is in flight"),
    };
    sender.send("x".to_string()).unwrap();
    assert_eq!(receiver.try_recv().unwrap(), "x");
}

#[test]
fn guard_gives_up_its_key_once_and_not_when_disarmed() {
    let mut engine = CoalescingEngine::new(DashMap::new());
    let _leader = engine.acquire("k".to_string());
    let mut disarmed = CoalescingGuard::new("k".to_string());
    disarmed.disarm();
    disarmed.finish(&mut engine);
    assert!(matches!(engine.acquire("k".to_string()), CoalescingSlot::Subscriber { .. }));
    let mut guard = CoalescingGuard::new("k".to_string());
    guard.finish(&mut engine);
    assert!(matches!(engine.acquire("k".to_string()), CoalescingSlot::Leader { .. }));
    guard.finish(&mut engine);
    assert!(matches!(engine.acquire("k".to_string()), CoalescingSlot::Subscriber { .. }));
}
