use adm::queue::{DownloadAddParams, QueueState, Sessions};

fn params(url: &str) -> DownloadAddParams {
    DownloadAddParams { url: url.to_string(), ..Default::default() }
}

fn ids(items: &[(u64, DownloadAddParams)]) -> Vec<u64> {
    items.iter().map(|(id, _)| *id).collect()
}

#[test]
fn stopped_queue_holds_items() {
    let mut q = QueueState::new();
    assert!(q.push(1, params("http://a/1")).is_empty());
    assert!(q.push(2, params("http://a/2")).is_empty());
    assert!(q.stop().is_empty());
}

#[test]
fn queue_sequential_with_max_one() {
    let mut q = QueueState::new();
    q.set_max(1);
    q.push(1, params("http://a/1"));
    q.push(2, params("http://a/2"));
    q.push(3, params("http://a/3"));
    let s = q.start();
    assert_eq!(ids(&s), vec![1]);
    assert_eq!(s[0].1.url, "http://a/1");
    assert!(q.finished(99).is_empty());
    assert_eq!(ids(&q.finished(1)), vec![2]);
    assert_eq!(ids(&q.finished(2)), vec![3]);
    assert!(q.finished(3).is_empty());
}

#[test]
fn raising_max_fills_slots_in_order() {
    let mut q = QueueState::new();
    for i in 1..=4u64 {
        q.push(i, params("http://a/x"));
    }
    assert_eq!(ids(&q.start()), vec![1]);
    assert_eq!(ids(&q.set_max(3)), vec![2, 3]);
    assert_eq!(q.stop(), vec![1, 2, 3]);
    assert!(q.finished(1).is_empty());
    assert_eq!(ids(&q.start()), vec![4]);
}

#[test]
fn set_max_zero_means_one() {
    let mut q = QueueState::new();
    q.set_max(0);
    q.push(1, params("u"));
    q.push(2, params("u"));
    assert_eq!(ids(&q.start()), vec![1]);
}

#[test]
fn remove_waiting_takes_item_out() {
    let mut q = QueueState::new();
    q.push(1, params("u"));
    q.push(2, params("u"));
    q.push(3, params("u"));
    assert!(q.remove_waiting(2));
    assert!(!q.remove_waiting(2));
    q.set_max(5);
    assert_eq!(ids(&q.start()), vec![1, 3]);
}

#[test]
fn sessions_replace_and_end() {
    let mut s: Sessions<&'static str> = Sessions::new();
    assert_eq!(s.len(), 0);
    assert_eq!(s.begin(7, 1, "first"), None);
    assert_eq!(s.get(7), Some(&"first"));
    assert_eq!(s.begin(7, 2, "second"), Some("first"));
    assert_eq!(s.len(), 1);
    assert!(!s.end(7, 1));
    assert_eq!(s.get(7), Some(&"second"));
    assert!(s.end(7, 2));
    assert_eq!(s.get(7), None);
}

#[test]
fn sessions_ids_and_remove() {
    let mut s: Sessions<u8> = Sessions::new();
    s.begin(1, 10, 0);
    s.begin(2, 11, 0);
    s.begin(3, 12, 0);
    let mut v = s.ids();
    v.sort();
    assert_eq!(v, vec![1, 2, 3]);
    assert_eq!(s.remove_entry(2), Some((11, 0)));
    assert_eq!(s.remove_entry(2), None);
    let mut v = s.ids();
    v.sort();
    assert_eq!(v, vec![1, 3]);
}

#[test]
fn cancelled_waiting_item_never_starts() {
    let mut q = QueueState::new();
    q.set_max(3);
    q.push(1, params("u"));
    q.push(2, params("u"));
    q.push(2, params("u"));
    assert!(q.remove_waiting(2));
    assert_eq!(ids(&q.start()), vec![1]);
    assert!(q.finished(1).is_empty());
    assert!(q.set_max(10).is_empty());
}
