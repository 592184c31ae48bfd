//! An append-only deque: a persistent list of shared-element handles plus
//! cached handles to the first and last elements, giving O(1) access to both
//! ends while the list keeps the elements in append order.

use std::rc::Rc;

use vstd::prelude::*;

use crate::linked_list::LinkedList;

verus! {

/// The failure of `Deque::append` on a deque whose backing-list slot was left
/// detached by bypassing the designated constructor.
#[derive(Debug, PartialEq, Eq)]
pub struct IllegalStateError;

impl IllegalStateError {
    /// A human-readable description of the error.
    pub fn message(&self) -> (r: &'static str)
        ensures
            r@ == "Illegal Deque struct state. Please use Deque constructors."@,
    {
        "Illegal Deque struct state. Please use Deque constructors."
    }
}

/// An append-only sequence with O(1) access to its first and last elements.
/// Each stored element is a shared handle, referenced at once from
/// `elements`, from `first` and from `last` where applicable.
pub struct Deque<T> {
    /// The ordered backing list; never absent in a deque built through
    /// `empty()`.
    pub elements: Option<LinkedList<Rc<T>>>,
    /// Handle to the earliest-appended element; set by the first successful
    /// append and never changed afterwards.
    pub first: Option<Rc<T>>,
    /// Handle to the most recently appended element.
    pub last: Option<Rc<T>>,
}

impl<T> Deque<T> {
    /// The deque holds exactly the values of `vs`, in append order: the
    /// backing list yields them front to back, `first` is the earliest and
    /// `last` the most recent, both absent only when no element was ever
    /// appended.
    pub open spec fn models(self, vs: Seq<T>) -> bool {
        &&& self.elements matches Some(l) && l.well_formed() && l.seq().len() == vs.len()
            && (forall|i: int| 0 <= i < vs.len() ==> l.seq()[i] == vs[i])
        &&& if vs.len() == 0 {
            self.first is None && self.last is None
        } else {
            (self.first matches Some(f) && f == vs[0])
                && (self.last matches Some(b) && b == vs[vs.len() - 1])
        }
    }

    /// Returns a deque whose backing list is the empty list and whose
    /// `first` and `last` are both absent.
    pub fn empty() -> (r: Self)
        ensures
            r.elements == Some(LinkedList::<Rc<T>>::Nil),
            r.first is None,
            r.last is None,
            r.models(Seq::<T>::empty()),
    {
        Deque::<T> {
            elements: Some(LinkedList::<Rc<T>>::empty()),
            first: None,
            last: None,
        }
    }

    /// Wraps `element` in a new shared handle, appends that handle to the
    /// backing list, makes it the new `last`, and makes it `first` as well
    /// if no element was ever appended before. Returns the new handle.
    ///
    /// Fails with `IllegalStateError`, leaving the deque unchanged, exactly
    /// when the backing-list slot is detached — a state reachable only by
    /// constructing the value through means other than `empty()`.
    pub fn append(&mut self, element: T) -> (r: Result<Rc<T>, IllegalStateError>)
        ensures
            r is Ok <==> old(self).elements is Some,
            r matches Ok(handle) ==> {
                &&& handle == element
                &&& old(self).elements matches Some(l)
                    && final(self).elements == Some(l.spec_append(handle))
                &&& final(self).last == Some(handle)
                &&& final(self).first == if old(self).first is None {
                    Some(handle)
                } else {
                    old(self).first
                }
            },
            r is Err ==> *final(self) == *old(self),
            forall|vs: Seq<T>|
                #[trigger] old(self).models(vs) && r is Ok ==> final(self).models(
                    vs.push(element),
                ),
    {
        let elem_rc = Rc::new(element);
        match self.elements.take() {
            Some(elements) => {
                proof {
                    crate::linked_list::lemma_spec_append_properties(elements, elem_rc);
                }
                let new_elements = elements.append(elem_rc.clone());
                let new_last = elem_rc.clone();
                self.elements = Some(new_elements);
                if self.first.is_none() {
                    self.first = Some(new_last.clone());
                }
                self.last = Some(new_last.clone());
                Ok(new_last)
            },
            None => Err(IllegalStateError),
        }
    }
}

} // verus!
