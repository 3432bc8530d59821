use chatter::history::History;

fn pushed(capacity: usize, items: &[u32]) -> History<u32> {
    let mut log = History::new(capacity);
    for item in items {
        log.push(*item);
    }
    log
}

#[test]
fn new_log_is_empty() {
    let log: History<u32> = History::new(4);
    assert_eq!(log.to_vec(), Vec::<u32>::new());
    assert!(log.iter().is_empty());
}

#[test]
fn pushes_below_capacity_are_all_kept() {
    let log = pushed(4, &[7, 8, 9]);
    assert_eq!(log.to_vec(), vec![7, 8, 9]);
}

#[test]
fn pushes_up_to_capacity_are_all_kept() {
    let log = pushed(3, &[7, 8, 9]);
    assert_eq!(log.to_vec(), vec![7, 8, 9]);
}

#[test]
fn capacity_two_keeps_the_newest_two() {
    let mut log: History<&str> = History::new(2);
    log.push("m1");
    log.push("m2");
    log.push("m3");
    assert_eq!(log.to_vec(), vec!["m2", "m3"]);
    log.push("m4");
    assert_eq!(log.to_vec(), vec!["m3", "m4"]);
}

#[test]
fn many_pushes_keep_the_newest_in_order() {
    for capacity in 0..6usize {
        let mut log: History<usize> = History::new(capacity);
        for n in 0..20usize {
            log.push(n);
            let pushed = n + 1;
            let kept = if pushed < capacity { pushed } else { capacity };
            let expected: Vec<usize> = (pushed - kept..pushed).collect();
            assert_eq!(log.to_vec(), expected);
            assert!(log.to_vec().len() <= capacity);
        }
    }
}

#[test]
fn capacity_zero_keeps_nothing() {
    let mut log: History<u32> = History::new(0);
    log.push(1);
    log.push(2);
    assert_eq!(log.to_vec(), Vec::<u32>::new());
    assert_eq!(log.pop(), None);
}

#[test]
fn capacity_one_keeps_the_last() {
    let log = pushed(1, &[1, 2, 3]);
    assert_eq!(log.to_vec(), vec![3]);
}

#[test]
fn iter_gives_the_entries_oldest_first() {
    let log = pushed(3, &[1, 2, 3, 4, 5]);
    let seen: Vec<u32> = log.iter().into_iter().copied().collect();
    assert_eq!(seen, vec![3, 4, 5]);
}

#[test]
fn iter_agrees_with_to_vec_at_every_cursor() {
    let mut log: History<u32> = History::new(4);
    for n in 0..13u32 {
        log.push(n);
        let seen: Vec<u32> = log.iter().into_iter().copied().collect();
        assert_eq!(seen, log.to_vec());
    }
}

#[test]
fn pop_on_empty_log_is_none() {
    let mut log: History<u32> = History::new(3);
    assert_eq!(log.pop(), None);
    assert_eq!(log.to_vec(), Vec::<u32>::new());
}

#[test]
fn pop_takes_the_newest_below_capacity() {
    let mut log = pushed(4, &[1, 2, 3]);
    assert_eq!(log.pop(), Some(3));
    assert_eq!(log.to_vec(), vec![1, 2]);
    assert_eq!(log.pop(), Some(2));
    assert_eq!(log.pop(), Some(1));
    assert_eq!(log.pop(), None);
}

#[test]
fn pop_takes_the_newest_of_a_full_log() {
    let mut log = pushed(3, &[1, 2, 3, 4, 5]);
    assert_eq!(log.pop(), Some(5));
    assert_eq!(log.to_vec(), vec![3, 4]);
}

#[test]
fn push_after_pop_goes_on_in_order() {
    let mut log = pushed(3, &[1, 2, 3, 4]);
    assert_eq!(log.pop(), Some(4));
    log.push(9);
    assert_eq!(log.to_vec(), vec![2, 3, 9]);
    log.push(10);
    assert_eq!(log.to_vec(), vec![3, 9, 10]);
    assert_eq!(log.pop(), Some(10));
    assert_eq!(log.pop(), Some(9));
    assert_eq!(log.pop(), Some(3));
    assert_eq!(log.pop(), None);
}

#[test]
fn clone_keeps_entries_and_capacity() {
    let log = pushed(2, &[1, 2, 3]);
    let mut copy = log.clone();
    assert_eq!(copy.to_vec(), vec![2, 3]);
    copy.push(4);
    assert_eq!(copy.to_vec(), vec![3, 4]);
    assert_eq!(log.to_vec(), vec![2, 3]);
}
