use colorlang::utils::peek_take_while;
use std::collections::VecDeque;

#[test]
fn _peek_take_while() {
    let mut deque = VecDeque::from(vec![1, 2, 3, 4, 5]);
    let result = peek_take_while(&mut deque, |&x| x == 3);
    assert_eq!(result, VecDeque::from(vec![1, 2]));
    assert_eq!(deque, VecDeque::from(vec![3, 4, 5]));

    let mut deque: VecDeque<usize> = VecDeque::new();
    let result = peek_take_while(&mut deque, |&x| x == 3);
    assert_eq!(result, VecDeque::new());
    assert_eq!(deque, VecDeque::new());

    let mut deque = VecDeque::from(vec![1, 2, 3, 4, 5]);
    let result = peek_take_while(&mut deque, |&x| x == 10);
    assert_eq!(result, VecDeque::from(vec![1, 2, 3, 4, 5]));
    assert_eq!(deque, VecDeque::new());
}
