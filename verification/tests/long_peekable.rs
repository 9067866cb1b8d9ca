use llamac::long_peekable::LongPeek;

#[test]
fn long_peekable_can_be_built() {
    let _ = (0..10).long_peekable();
}
#[test]
fn long_peekable_simple_peek() {
    let mut iter = (0..10).long_peekable();
    assert_eq!(iter.peek(), Some(&0));
    assert_eq!(iter.peek(), Some(&0));
    assert_eq!(iter.next(), Some(0));
    assert_eq!(iter.peek(), Some(&1));
    assert_eq!(iter.next(), Some(1));
    assert_eq!(iter.next(), Some(2));
    assert_eq!(iter.peek(), Some(&3));
}
#[test]
fn long_peekable_peek_nth() {
    let mut iter = (0..10).long_peekable();
    assert_eq!(iter.peek_nth(0), Some(&0));
    assert_eq!(iter.peek_nth(0), Some(&0));
    assert_eq!(iter.peek_nth(1), Some(&1));
    assert_eq!(iter.peek_nth(1), Some(&1));
    assert_eq!(iter.peek_nth(2), Some(&2));
    assert_eq!(iter.next(), Some(0));
    assert_eq!(iter.peek_nth(0), Some(&1));
    assert_eq!(iter.peek_nth(1), Some(&2));
}
#[test]
fn long_peekable_peek_nth_with_next_nth() {
    let mut iter = (0..10).long_peekable();
    assert_eq!(iter.peek_nth(0), Some(&0));
    assert_eq!(iter.peek_nth(4), Some(&4));
    assert_eq!(iter.count_peeked(), 5);
    assert_eq!(iter.next(), Some(0));
    assert_eq!(iter.count_peeked(), 4);
    assert_eq!(iter.nth(3), Some(4));
    assert_eq!(iter.count_peeked(), 0);
}
#[test]
fn long_peekable_peek_queue() {
    let mut iter = (0..10).long_peekable();
    assert_eq!(iter.peek(), Some(&0));
    assert_eq!(iter.count_peeked(), 1);
    assert_eq!(iter.peek(), Some(&0));
    assert_eq!(iter.count_peeked(), 1);
    assert_eq!(iter.next(), Some(0));
    assert_eq!(iter.count_peeked(), 0);
    assert_eq!(iter.peek(), Some(&1));
    assert_eq!(iter.count_peeked(), 1);
    assert_eq!(iter.peek_nth(3), Some(&4));
    assert_eq!(iter.count_peeked(), 4);
    assert_eq!(iter.next(), Some(1));
    assert_eq!(iter.count_peeked(), 3);
}
#[test]
fn long_peekable_peek_range() {
    let mut iter = (0..10).long_peekable();
    assert_eq!(iter.peek_range(0, 0), &[]);
    assert_eq!(iter.peek_range(0, 0), &[]);
    assert_eq!(iter.peek_range(0, 1), &[Some(0)]);
    assert_eq!(iter.peek_range(3, 5), &[Some(3), Some(4)]);
    assert_eq!(iter.count_peeked(), 5);
    assert_eq!(iter.next(), Some(0));
    assert_eq!(iter.count_peeked(), 4);
    assert_eq!(iter.next(), Some(1));
    assert_eq!(iter.count_peeked(), 3);
    assert_eq!(iter.peek_range(0, 1), &[Some(2)]);
}
#[test]
fn long_peekable_peek_after_end() {
    let mut iter = (0..10).long_peekable();
    assert_eq!(iter.peek_nth(10), None);
    assert_eq!(iter.peek(), Some(&0));
    assert_eq!(iter.count_peeked(), 11);
    assert_eq!(iter.peek_nth(20), None);
    assert_eq!(iter.count_peeked(), 11);
    assert_eq!(iter.nth(20), None);
    assert_eq!(iter.count_peeked(), 0);
    assert_eq!(iter.peek(), None);
    assert_eq!(iter.count_peeked(), 1);
    assert_eq!(iter.next(), None);
    assert_eq!(iter.count_peeked(), 0);
}
#[test]
fn long_peekable_peek_amount() {
    let mut iter = (0..10).long_peekable();
    assert_eq!(iter.peek_amount(0), &[]);
    assert_eq!(iter.peek_amount(0), &[]);
    assert_eq!(iter.peek_amount(1), &[Some(0)]);
    assert_eq!(iter.peek_amount(3), &[Some(0), Some(1), Some(2)]);
    assert_eq!(iter.count_peeked(), 3);
    assert_eq!(iter.next(), Some(0));
    assert_eq!(iter.count_peeked(), 2);
    assert_eq!(iter.next(), Some(1));
    assert_eq!(iter.count_peeked(), 1);
    assert_eq!(iter.peek_amount(1), &[Some(2)]);
}
#[test]
fn long_peekable_drain_all_peeked() {
    let mut iter = (0..6).long_peekable();
    assert_eq!(iter.peek_amount(3), &[Some(0), Some(1), Some(2)]);
    assert_eq!(iter.count_peeked(), 3);
    assert_eq!(iter.drain_all_peeked().collect::<Vec<i32>>(), [0, 1, 2]);
    assert_eq!(iter.count_peeked(), 0);
    assert_eq!(iter.peek_amount(3), &[Some(3), Some(4), Some(5)]);
    assert_eq!(iter.count_peeked(), 3);
    assert_eq!(iter.drain_all_peeked().collect::<Vec<i32>>(), [3, 4, 5]);
    assert_eq!(iter.count_peeked(), 0);
    let empty: &[i32] = &[];
    assert_eq!(iter.drain_all_peeked().collect::<Vec<i32>>(), empty);
    assert_eq!(iter.peek(), None);
    assert_eq!(iter.drain_all_peeked().collect::<Vec<i32>>(), empty);
}
#[test]
fn count_peeked() {
    let mut iter = (0..5).long_peekable();
    assert_eq!(iter.count_peeked(), 0);
    assert_eq!(iter.peek(), Some(&0));
    assert_eq!(iter.count_peeked(), 1);
    assert_eq!(iter.peek_nth(3), Some(&3));
    assert_eq!(iter.count_peeked(), 4);
    assert_eq!(iter.peek_range(0, 2), &[Some(0), Some(1)]);
    assert_eq!(iter.count_peeked(), 4);
    assert_eq!(iter.drain_all_peeked().collect::<Vec<i32>>(), &[0, 1, 2, 3]);
    assert_eq!(iter.count_peeked(), 0);
}

#[test]
fn interleaved_calls_hand_out_every_item_in_order() {
    let mut iter = (0..10).long_peekable();
    let mut out: Vec<i32> = Vec::new();
    assert_eq!(iter.peek_nth(3), Some(&3));
    out.push(iter.next().unwrap());
    assert_eq!(iter.peek_range(0, 2), &[Some(1), Some(2)]);
    out.extend(iter.drain_all_peeked());
    assert_eq!(iter.peek(), Some(&4));
    out.push(iter.next().unwrap());
    out.push(iter.nth(1).unwrap());
    assert_eq!(iter.peek_amount(2), &[Some(7), Some(8)]);
    out.push(iter.next().unwrap());
    out.extend(iter.drain_all_peeked());
    while let Some(x) = iter.next() {
        out.push(x);
    }
    let mut all: Vec<i32> = (0..10).collect();
    all.remove(5);
    assert_eq!(out, all);
}
