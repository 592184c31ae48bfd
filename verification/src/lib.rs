//! A persistent (immutable, structurally shared) singly linked list, a deque
//! built on top of it, and a few self-contained algorithms over plain values:
//! quicksort, binary search, matrix rotation and a Roman-numeral codec.

pub mod deque;
pub mod linked_list;
pub mod matrix;
pub mod roman;
pub mod search;
pub mod sorting;
