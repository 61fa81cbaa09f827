use scaproust_core::priolist::PrioList;

#[test]
fn pop_rotates_over_active_tokens() {
    let mut fq = PrioList::new();
    fq.insert(30);
    fq.insert(10);
    fq.insert(20);
    fq.activate(30);
    fq.activate(10);
    fq.activate(20);
    assert_eq!(Some(30), fq.pop());
    assert_eq!(Some(10), fq.pop());
    assert_eq!(Some(20), fq.pop());
    assert_eq!(None, fq.pop());
}

#[test]
fn pop_skips_inactive_and_resumes_after_last() {
    let mut fq = PrioList::new();
    fq.insert(1);
    fq.insert(2);
    fq.insert(3);
    fq.activate(1);
    fq.activate(3);
    assert_eq!(Some(1), fq.pop());
    fq.activate(1);
    assert_eq!(Some(3), fq.pop());
    assert_eq!(Some(1), fq.pop());
}

#[test]
fn insert_is_idempotent_and_remove_keeps_order() {
    let mut fq = PrioList::new();
    fq.insert(1);
    fq.insert(2);
    fq.insert(2);
    fq.insert(3);
    assert_eq!(3, fq.len());
    fq.remove(2);
    assert_eq!(vec![1, 3], *fq.tokens());
    assert!(!fq.contains(2));
    fq.remove(99);
    assert_eq!(2, fq.len());
}

#[test]
fn pop_on_empty_queue_is_none() {
    let mut fq = PrioList::new();
    assert_eq!(None, fq.pop());
    fq.insert(5);
    assert_eq!(None, fq.pop());
    fq.deactivate(5);
    assert_eq!(None, fq.pop());
}

#[test]
fn clear_forgets_everything() {
    let mut fq = PrioList::new();
    fq.insert(4);
    fq.activate(4);
    fq.clear();
    assert_eq!(0, fq.len());
    assert_eq!(None, fq.pop());
}
