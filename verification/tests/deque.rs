use std::rc::Rc;

use persistent_collections::deque::{Deque, IllegalStateError};
use persistent_collections::linked_list::LinkedList;

#[test]
fn deque_test_empty() {
    let actual = Deque::<u8>::empty();
    assert_eq!(actual.elements, Some(LinkedList::<Rc<u8>>::empty()));
    assert_eq!(actual.first, None);
    assert_eq!(actual.last, None);
}

#[test]
fn test_append_from_empty_deque() {
    let mut deque = Deque::<u8>::empty();
    let result = deque.append(9);

    assert_eq!(result, Ok(Rc::new(9)));

    let expected_ll = LinkedList::<Rc<u8>>::empty().append(Rc::new(9));
    let expected_elements = Some(expected_ll);
    assert_eq!(deque.elements, expected_elements);
    assert_eq!(deque.first, Some(Rc::new(9)));
    assert_eq!(deque.last, Some(Rc::new(9)));
}

#[test]
fn test_append_multiple() {
    let mut deque = Deque::<u8>::empty();
    let _ = deque.append(9);
    let result = deque.append(42);

    assert_eq!(result, Ok(Rc::new(42)));

    let expected_ll = LinkedList::<Rc<u8>>::empty()
        .append(Rc::new(9))
        .append(Rc::new(42));
    let expected_elements = Some(expected_ll);
    assert_eq!(deque.elements, expected_elements);
    assert_eq!(deque.first, Some(Rc::new(9)));
    assert_eq!(deque.last, Some(Rc::new(42)));
}

#[test]
fn test_append_illegal_state() {
    let mut deque = Deque {
        elements: None,
        first: None,
        last: None,
    };
    let err = deque.append(9).unwrap_err();
    assert_eq!(err, IllegalStateError);
    assert_eq!(
        err.message(),
        "Illegal Deque struct state. Please use Deque constructors."
    )
}

#[test]
fn test_append_illegal_state_changes_nothing() {
    let mut deque = Deque::<u8> {
        elements: None,
        first: Some(Rc::new(7)),
        last: Some(Rc::new(8)),
    };
    assert_eq!(deque.append(9), Err(IllegalStateError));
    assert_eq!(deque.elements, None);
    assert_eq!(deque.first, Some(Rc::new(7)));
    assert_eq!(deque.last, Some(Rc::new(8)));
}

#[test]
fn test_first_and_last_over_many_appends() {
    let mut deque = Deque::<u32>::empty();
    let values: [u32; 5] = [9, 42, 7, 42, 1];
    for v in values {
        let handle = deque.append(v).unwrap();
        assert_eq!(*handle, v);
        assert_eq!(deque.first, Some(Rc::new(9)));
        assert_eq!(deque.last, Some(Rc::new(v)));
    }
    let elements = deque.elements.unwrap();
    for (i, v) in values.iter().enumerate() {
        assert_eq!(**elements.peek(i).unwrap(), *v);
    }
    assert!(elements.peek(5).is_err());
}
