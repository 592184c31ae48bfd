use persistent_collections::linked_list::{LinkedList, PeekError};

#[test]
fn linked_list_test_empty() {
    assert_eq!(LinkedList::<u8>::empty(), LinkedList::Nil)
}

#[test]
fn linked_list_test_new_head() {
    assert_eq!(
        LinkedList::<u8>::new(10 as u8),
        LinkedList::<u8>::Tail { head: 10 as u8 }
    )
}

#[test]
fn test_append_from_empty() {
    let empty = LinkedList::<u8>::empty();
    let new = empty.append(10);
    assert_eq!(new, LinkedList::Tail { head: 10 });
}

#[test]
fn test_append_from_tail() {
    let head = LinkedList::new(10 as u8);

    let expected = LinkedList::Link {
        head: 10 as u8,
        tail: Box::new(LinkedList::Tail { head: 20 as u8 }),
    };

    assert_eq!(head.append(20), expected);
}

#[test]
fn test_append_from_link() {
    let list = LinkedList::Link {
        head: 10 as u8,
        tail: Box::new(LinkedList::Tail { head: 20 as u8 }),
    };

    let expected = LinkedList::Link {
        head: 10 as u8,
        tail: Box::new(LinkedList::Link {
            head: 20 as u8,
            tail: Box::new(LinkedList::Tail { head: 30 }),
        }),
    };

    assert_eq!(list.append(30), expected);
}

#[test]
fn test_peek() {
    let list = LinkedList::<u8>::new(9 as u8).append(42);
    assert_eq!(list.peek(0).unwrap(), &(9 as u8));
    assert_eq!(list.peek(1).unwrap(), &(42 as u8));
}

#[test]
fn test_peek_nil() {
    let list = LinkedList::<u8>::Nil;
    let err = list.peek(0).unwrap_err();
    assert_eq!(err, PeekError::EmptyList);
    assert_eq!(err.message(), "Cannot peek anything from an empty list.");
}

#[test]
fn test_peek_overflow() {
    let list = LinkedList::new(9).append(42);
    let err = list.peek(2).unwrap_err();
    assert_eq!(err, PeekError::IndexOutOfBounds);
    assert_eq!(err.message(), "Index overflow.");
}

#[test]
fn test_peek_after_single_append() {
    let list = LinkedList::<u8>::empty().append(10);
    assert_eq!(list.peek(0).unwrap(), &10);
    assert_eq!(list.peek(1), Err(PeekError::IndexOutOfBounds));
}

#[test]
fn test_peek_nil_any_index() {
    let list = LinkedList::<u8>::empty();
    assert_eq!(list.peek(5), Err(PeekError::EmptyList));
    assert_eq!(list.peek(usize::MAX), Err(PeekError::EmptyList));
}

#[test]
fn test_append_order_kept() {
    let values: [u64; 4] = [7, 3, 3, 11];
    let mut list = LinkedList::<u64>::empty();
    for v in values {
        list = list.append(v);
    }
    for (i, v) in values.iter().enumerate() {
        assert_eq!(list.peek(i).unwrap(), v);
    }
    assert_eq!(list.peek(4), Err(PeekError::IndexOutOfBounds));
}

#[test]
fn test_append_leaves_original_readable() {
    let original = LinkedList::<u64>::empty().append(1).append(2);
    let extended = LinkedList::<u64>::empty().append(1).append(2).append(3);
    for i in 0..2 {
        assert_eq!(original.peek(i).unwrap(), extended.peek(i).unwrap());
    }
    assert_eq!(extended.peek(2).unwrap(), &3);
    assert_eq!(original.peek(2), Err(PeekError::IndexOutOfBounds));
}

#[test]
fn test_display_empty() {
    let list = LinkedList::<u64>::empty();
    assert_eq!(list.to_display_string(), "List()");
}

#[test]
fn test_display_single() {
    let list = LinkedList::<u64>::new(5);
    assert_eq!(list.to_display_string(), "List(5)");
}

#[test]
fn test_display_many() {
    let list = LinkedList::<u64>::empty().append(1).append(20).append(300);
    assert_eq!(list.to_display_string(), "List(1, 20, 300)");
}
