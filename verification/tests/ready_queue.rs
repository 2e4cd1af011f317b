use kernel::ready_queue::ReadyQueue;

#[test]
fn ready_queue_is_first_in_first_out() {
    let mut q = ReadyQueue::new();
    assert!(q.is_empty());
    q.push(3);
    q.push(4);
    assert!(!q.is_empty());
    assert_eq!(q.pop(), Some(3));
    assert_eq!(q.pop(), Some(4));
    assert_eq!(q.pop(), None);
}
