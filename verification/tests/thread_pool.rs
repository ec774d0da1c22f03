use hooch::pool::thread_pool::HoochPool;

#[test]
fn test_index_update() {
    let (tx0, rx0) = std::sync::mpsc::sync_channel::<u32>(4);
    let (tx1, rx1) = std::sync::mpsc::sync_channel::<u32>(4);
    let mut hooch_executor = HoochPool::from_senders(vec![tx0, tx1]);

    assert!(hooch_executor.cursor() == 0);
    assert!(hooch_executor.next_sender().send(1).is_ok());
    assert!(rx0.recv().unwrap() == 1);
    assert!(hooch_executor.cursor() == 1);

    assert!(hooch_executor.next_sender().send(2).is_ok());
    assert!(rx1.recv().unwrap() == 2);
    assert!(hooch_executor.cursor() == 0);

    assert!(hooch_executor.next_sender().send(3).is_ok());
    assert!(rx0.recv().unwrap() == 3);
    assert!(hooch_executor.cursor() == 1);
}

#[test]
fn round_robin_cycles_over_three_workers() {
    let mut rxs = Vec::new();
    let mut txs = Vec::new();
    for _ in 0..3 {
        let (tx, rx) = std::sync::mpsc::sync_channel::<usize>(8);
        txs.push(tx);
        rxs.push(rx);
    }
    let mut pool = HoochPool::from_senders(txs);
    assert_eq!(pool.num_threads(), 3);
    for job in 0..7usize {
        assert!(pool.next_sender().send(job).is_ok());
        assert_eq!(rxs[job % 3].recv().unwrap(), job);
        assert_eq!(pool.cursor(), (job + 1) % 3);
    }
}

#[test]
fn single_worker_gets_every_job() {
    let (tx, rx) = std::sync::mpsc::sync_channel::<String>(2);
    let mut pool = HoochPool::from_senders(vec![tx]);
    pool.next_sender().send("a".to_string()).unwrap();
    pool.next_sender().send("b".to_string()).unwrap();
    assert_eq!(rx.recv().unwrap(), "a");
    assert_eq!(rx.recv().unwrap(), "b");
    assert_eq!(pool.cursor(), 0);
}
