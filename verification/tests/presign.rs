use oracle_proxy::presign::{in_bucket, PresignQueue, QueuedTx};

fn entry(key: &str, market: &str, side: &str, queued_at: i128, expires_at: i128, tx: u32) -> QueuedTx<u32> {
    QueuedTx {
        key: key.to_string(),
        market_id: market.to_string(),
        side: side.to_string(),
        version: "v1".to_string(),
        expires_at,
        queued_at,
        tx,
    }
}

fn txs(q: &PresignQueue<u32>) -> Vec<u32> {
    q.entries.iter().map(|e| e.tx).collect()
}

#[test]
fn presign_insert_adds_and_replaces_by_key() {
    let mut q: PresignQueue<u32> = PresignQueue::new();
    assert_eq!(q.len(), 0);
    q.insert(entry("m|BUY|v1|1", "m", "BUY", 10, 100, 1));
    q.insert(entry("m|BUY|v1|2", "m", "BUY", 11, 100, 2));
    assert_eq!(q.len(), 2);
    q.insert(entry("m|BUY|v1|1", "m", "BUY", 12, 100, 9));
    assert_eq!(q.len(), 2);
    assert_eq!(txs(&q), vec![9, 2]);
}

#[test]
fn presign_prune_drops_expired_in_order() {
    let mut q: PresignQueue<u32> = PresignQueue::new();
    q.insert(entry("a", "m", "BUY", 1, 50, 1));
    q.insert(entry("b", "m", "BUY", 2, 100, 2));
    q.insert(entry("c", "m", "BUY", 3, 101, 3));
    q.insert(entry("d", "m", "BUY", 4, 200, 4));
    q.prune_expired(100);
    assert_eq!(txs(&q), vec![3, 4]);
}

#[test]
fn presign_dequeue_serves_oldest_fresh_and_drops_older_stale() {
    let mut q: PresignQueue<u32> = PresignQueue::new();
    q.insert(entry("late", "m", "BUY", 30, 1000, 30));
    q.insert(entry("other", "x", "BUY", 5, 1000, 5));
    q.insert(entry("stale", "m", "BUY", 10, 1000, 10));
    q.insert(entry("mid", "m", "BUY", 20, 1000, 20));
    // per entry, in queue order: late, other, stale, mid
    let fresh = vec![true, true, false, true];
    let got = q.dequeue("m", "buy", "v1", &fresh);
    assert_eq!(got, Some(20));
    assert_eq!(txs(&q), vec![30, 5]);
}

#[test]
fn presign_dequeue_without_fresh_entry_drops_bucket() {
    let mut q: PresignQueue<u32> = PresignQueue::new();
    q.insert(entry("a", "m", "SELL", 1, 1000, 1));
    q.insert(entry("b", "m", "BUY", 2, 1000, 2));
    q.insert(entry("c", "m", "SELL", 3, 1000, 3));
    let fresh = vec![false, true, false];
    assert_eq!(q.dequeue("m", "SELL", "v1", &fresh), None);
    assert_eq!(txs(&q), vec![2]);
}

#[test]
fn presign_dequeue_ties_go_to_first_listed() {
    let mut q: PresignQueue<u32> = PresignQueue::new();
    q.insert(entry("a", "m", "BUY", 7, 1000, 1));
    q.insert(entry("b", "m", "BUY", 7, 1000, 2));
    let fresh = vec![true, true];
    assert_eq!(q.dequeue("m", "BUY", "v1", &fresh), Some(1));
    assert_eq!(q.dequeue("m", "BUY", "v1", &vec![true]), Some(2));
    assert_eq!(q.len(), 0);
}

#[test]
fn presign_bucket_matches_side_in_any_case() {
    let e = entry("k", "m", "BUY", 1, 2, 0);
    assert!(in_bucket(&e, "m", "buy", "v1"));
    assert!(in_bucket(&e, "m", "Buy", "v1"));
    assert!(!in_bucket(&e, "m", "SELL", "v1"));
    assert!(!in_bucket(&e, "n", "BUY", "v1"));
    assert!(!in_bucket(&e, "m", "BUY", "v2"));
}
