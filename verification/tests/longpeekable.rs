use llamac::longpeekable::LongPeek;

#[test]
fn longpeekable_can_be_built() {
    let _ = (0..10).long_peekable();
}
#[test]
fn longpeekable_simple_peek() {
    let mut iter = (0..10).long_peekable();
    assert_eq!(iter.peek(), Some(&0));
    assert_eq!(iter.peek(), Some(&0));
    assert_eq!(iter.next(), Some(0));
    assert_eq!(iter.peek(), Some(&1));
    assert_eq!(iter.next(), Some(1));
    assert_eq!(iter.next(), Some(2));
    assert_eq!(iter.peek(), Some(&3));
}
#[test]
fn longpeekable_peek_nth() {
    let mut iter = (0..10).long_peekable();
    assert_eq!(iter.peek_nth(0), Some(&0));
    assert_eq!(iter.peek_nth(0), Some(&0));
    assert_eq!(iter.peek_nth(1), Some(&1));
    assert_eq!(iter.peek_nth(1), Some(&1));
    assert_eq!(iter.peek_nth(2), Some(&2));
    assert_eq!(iter.next(), Some(0));
    assert_eq!(iter.peek_nth(0), Some(&1));
    assert_eq!(iter.peek_nth(1), Some(&2));
}
#[test]
fn longpeekable_peek_nth_with_next_nth() {
    let mut iter = (0..10).long_peekable();
    assert_eq!(iter.peek_nth(0), Some(&0));
    assert_eq!(iter.peek_nth(4), Some(&4));
    assert_eq!(iter.count_peeked(), 5);
    assert_eq!(iter.next(), Some(0));
    assert_eq!(iter.count_peeked(), 4);
    assert_eq!(iter.nth(3), Some(4));
    assert_eq!(iter.count_peeked(), 0);
}
#[test]
fn longpeekable_peek_queue() {
    let mut iter = (0..10).long_peekable();
    assert_eq!(iter.peek(), Some(&0));
    assert_eq!(iter.count_peeked(), 1);
    assert_eq!(iter.peek(), Some(&0));
    assert_eq!(iter.count_peeked(), 1);
    assert_eq!(iter.next(), Some(0));
    assert_eq!(iter.count_peeked(), 0);
    assert_eq!(iter.peek(), Some(&1));
    assert_eq!(iter.count_peeked(), 1);
    assert_eq!(iter.peek_nth(3), Some(&4));
    assert_eq!(iter.count_peeked(), 4);
    assert_eq!(iter.next(), Some(1));
    assert_eq!(iter.count_peeked(), 3);
}
#[test]
fn longpeekable_peek_range() {
    let mut iter = (0..10).long_peekable();
    assert_eq!(iter.peek_range(0, 0), &[]);
    assert_eq!(iter.peek_range(0, 0), &[]);
    assert_eq!(iter.peek_range(0, 1), &[Some(0)]);
    assert_eq!(iter.peek_range(3, 5), &[Some(3), Some(4)]);
    assert_eq!(iter.count_peeked(), 5);
    assert_eq!(iter.next(), Some(0));
    assert_eq!(iter.count_peeked(), 4);
    assert_eq!(iter.next(), Some(1));
    assert_eq!(iter.count_peeked(), 3);
    assert_eq!(iter.peek_range(0, 1), &[Some(2)]);
}
#[test]
fn longpeekable_peek_after_end() {
    let mut iter = (0..10).long_peekable();
    assert_eq!(iter.peek_nth(10), None);
    assert_eq!(iter.peek(), Some(&0));
    assert_eq!(iter.count_peeked(), 11);
    assert_eq!(iter.peek_nth(20), None);
    assert_eq!(iter.count_peeked(), 11);
    assert_eq!(iter.nth(20), None);
    assert_eq!(iter.count_peeked(), 0);
    assert_eq!(iter.peek(), None);
    assert_eq!(iter.count_peeked(), 1);
    assert_eq!(iter.next(), None);
    assert_eq!(iter.count_peeked(), 0);
}
#[test]
fn longpeekable_peek_amount() {
    let mut iter = (0..10).long_peekable();
    assert_eq!(iter.peek_amount(0), &[]);
    assert_eq!(iter.peek_amount(0), &[]);
    assert_eq!(iter.peek_amount(1), &[Some(0)]);
    assert_eq!(iter.peek_amount(3), &[Some(0), Some(1), Some(2)]);
    assert_eq!(iter.count_peeked(), 3);
    assert_eq!(iter.next(), Some(0));
    assert_eq!(iter.count_peeked(), 2);
    assert_eq!(iter.next(), Some(1));
    assert_eq!(iter.count_peeked(), 1);
    assert_eq!(iter.peek_amount(1), &[Some(2)]);
}
#[test]
fn longpeekable_drain_all_peeked() {
    let mut iter = (0..10).long_peekable();
    assert_eq!(iter.peek_amount(3), &[Some(0), Some(1), Some(2)]);
    assert_eq!(iter.count_peeked(), 3);
    let drained: Vec<i32> = iter.drain_all_peeked().collect();
    assert_eq!(drained, &[0, 1, 2]);
    assert_eq!(iter.count_peeked(), 0);
    assert_eq!(iter.peek_amount(3), &[Some(3), Some(4), Some(5)]);
    assert_eq!(iter.count_peeked(), 3);
    let drained: Vec<i32> = iter.drain_all_peeked().collect();
    assert_eq!(drained, &[3, 4, 5]);
    assert_eq!(iter.count_peeked(), 0);
    let drained: Vec<i32> = iter.drain_all_peeked().collect();
    assert_eq!(drained, &[]);
}
