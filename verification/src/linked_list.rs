//! An immutable, recursively defined ordered sequence of elements, built only
//! by appending to the end. `append` consumes the old list value and returns a
//! new one; a value once built is never mutated.

use vstd::prelude::*;
use vstd::string::StringExecFns;

verus! {

/// The ways `LinkedList::peek` can fail.
#[derive(Debug, PartialEq, Eq)]
pub enum PeekError {
    /// `peek` was invoked on a list with no elements.
    EmptyList,
    /// `peek` was invoked with an index at or beyond the element count.
    IndexOutOfBounds,
}

impl PeekError {
    /// A human-readable description of the error.
    pub fn message(&self) -> (r: &'static str)
        ensures
            *self == PeekError::EmptyList ==> r@ == "Cannot peek anything from an empty list."@,
            *self == PeekError::IndexOutOfBounds ==> r@ == "Index overflow."@,
    {
        match self {
            PeekError::EmptyList => "Cannot peek anything from an empty list.",
            PeekError::IndexOutOfBounds => "Index overflow.",
        }
    }
}

/// A persistent singly linked list: the zero-element list, a one-element
/// terminal, or a head value followed by an exclusively owned rest.
#[derive(Debug, PartialEq)]
pub enum LinkedList<T> {
    Nil,
    Tail { head: T },
    Link { head: T, tail: Box<LinkedList<T>> },
}

impl<T> LinkedList<T> {
    /// The mathematical model of the list: its elements, front to back.
    pub open spec fn seq(self) -> Seq<T>
        decreases self,
    {
        match self {
            LinkedList::Nil => Seq::empty(),
            LinkedList::Tail { head } => seq![head],
            LinkedList::Link { head, tail } => seq![head] + tail.seq(),
        }
    }

    /// There is exactly one representation of the empty list: `Nil` never
    /// appears below a `Link`, so structural recursion always bottoms out in
    /// `Tail` (or the list is `Nil` as a whole).
    pub open spec fn well_formed(self) -> bool
        decreases self,
    {
        match self {
            LinkedList::Nil => true,
            LinkedList::Tail { head } => true,
            LinkedList::Link { head, tail } => !(*tail matches LinkedList::Nil)
                && tail.well_formed(),
        }
    }

    /// The list `append` builds: the same chain with `element` re-threaded in
    /// after all existing elements.
    pub open spec fn spec_append(self, element: T) -> LinkedList<T>
        decreases self,
    {
        match self {
            LinkedList::Nil => LinkedList::Tail { head: element },
            LinkedList::Tail { head } => LinkedList::Link {
                head,
                tail: Box::new(LinkedList::Tail { head: element }),
            },
            LinkedList::Link { head, tail } => LinkedList::Link {
                head,
                tail: Box::new(tail.spec_append(element)),
            },
        }
    }

    /// Returns the canonical zero-element list.
    pub fn empty() -> (r: Self)
        ensures
            r == LinkedList::<T>::Nil,
            r.seq() == Seq::<T>::empty(),
            r.well_formed(),
    {
        LinkedList::Nil
    }

    /// Returns a one-element list wrapping `element`.
    pub fn new(element: T) -> (r: Self)
        ensures
            r == (LinkedList::Tail { head: element }),
            r.seq() == seq![element],
            r.well_formed(),
    {
        LinkedList::Tail { head: element }
    }

    /// Returns a one-element list wrapping `element`.
    pub fn new_head(element: T) -> (r: Self)
        ensures
            r == (LinkedList::Tail { head: element }),
            r.seq() == seq![element],
            r.well_formed(),
    {
        LinkedList::Tail { head: element }
    }

    /// Consumes the list and returns a new list with `element` placed after
    /// all existing elements. Elements already in the list keep their
    /// relative order; the head values are moved, never copied.
    pub fn append(self, element: T) -> (r: Self)
        ensures
            r == self.spec_append(element),
            r.seq() == self.seq().push(element),
            self.well_formed() ==> r.well_formed(),
        decreases self,
    {
        proof {
            lemma_spec_append_properties(self, element);
        }
        match self {
            LinkedList::Nil => LinkedList::Tail { head: element },
            LinkedList::Tail { head } => LinkedList::Link {
                head,
                tail: Box::new(LinkedList::Tail { head: element }),
            },
            LinkedList::Link { head, tail } => {
                let new_tail = Box::new(tail.append(element));
                LinkedList::Link { head, tail: new_tail }
            },
        }
    }

    /// Returns a reference to the element at zero-based `index` without
    /// removing it. Fails with `EmptyList` on the empty list regardless of
    /// the index, and with `IndexOutOfBounds` when `index` is at or beyond
    /// the element count.
    pub fn peek(&self, index: usize) -> (r: Result<&T, PeekError>)
        requires
            self.well_formed(),
        ensures
            self.seq().len() == 0 ==> r == Result::<&T, PeekError>::Err(PeekError::EmptyList),
            self.seq().len() > 0 && index < self.seq().len() ==> (r matches Ok(v) && *v == self.seq()[index as int]),
            self.seq().len() > 0 && index >= self.seq().len() ==> r == Result::<&T, PeekError>::Err(PeekError::IndexOutOfBounds),
        decreases self,
    {
        match self {
            LinkedList::Nil => Err(PeekError::EmptyList),
            LinkedList::Tail { head } => {
                if index == 0 {
                    Ok(head)
                } else {
                    Err(PeekError::IndexOutOfBounds)
                }
            },
            LinkedList::Link { head, tail } => {
                if index == 0 {
                    Ok(head)
                } else {
                    proof {
                        lemma_well_formed_nonempty(**tail);
                    }
                    tail.peek(index - 1)
                }
            },
        }
    }
}

/// `spec_append` models one append exactly: the new list holds the old
/// elements followed by the new one, and appending to a well-formed list
/// yields a well-formed list.
pub proof fn lemma_spec_append_properties<T>(l: LinkedList<T>, element: T)
    ensures
        l.spec_append(element).seq() == l.seq().push(element),
        l.well_formed() ==> l.spec_append(element).well_formed(),
    decreases l,
{
    reveal_with_fuel(LinkedList::seq, 3);
    reveal_with_fuel(LinkedList::well_formed, 3);
    reveal_with_fuel(LinkedList::spec_append, 2);
    match l {
        LinkedList::Nil => {
            assert(l.spec_append(element).seq() =~= l.seq().push(element));
        },
        LinkedList::Tail { head } => {
            assert(l.spec_append(element).seq() =~= l.seq().push(element));
        },
        LinkedList::Link { head, tail } => {
            lemma_spec_append_properties(*tail, element);
            assert(l.spec_append(element).seq() =~= l.seq().push(element));
        },
    }
}

/// The character of a single decimal digit.
pub open spec fn digit_char(d: int) -> char {
    if d == 0 {
        '0'
    } else if d == 1 {
        '1'
    } else if d == 2 {
        '2'
    } else if d == 3 {
        '3'
    } else if d == 4 {
        '4'
    } else if d == 5 {
        '5'
    } else if d == 6 {
        '6'
    } else if d == 7 {
        '7'
    } else if d == 8 {
        '8'
    } else {
        '9'
    }
}

/// The decimal rendering of a nonnegative integer, most significant digit
/// first.
pub open spec fn dec_str(n: int) -> Seq<char>
    decreases n,
{
    if n < 10 {
        seq![digit_char(n)]
    } else {
        dec_str(n / 10) + seq![digit_char(n % 10)]
    }
}

/// The rendering of the elements of `vs`, in order, separated by `, `.
pub open spec fn elems_of(vs: Seq<u64>) -> Seq<char>
    decreases vs.len(),
{
    if vs.len() == 0 {
        Seq::empty()
    } else if vs.len() == 1 {
        dec_str(vs[0] as int)
    } else {
        dec_str(vs[0] as int) + seq![',', ' '] + elems_of(vs.drop_first())
    }
}

/// The full rendering of a list holding the values of `vs`:
/// `List(v1, v2, ..., vn)`, with no separator before the first element and
/// none after the last.
pub open spec fn display_of(vs: Seq<u64>) -> Seq<char> {
    seq!['L', 'i', 's', 't', '('] + elems_of(vs) + seq![')']
}

/// The one-character string of a single decimal digit.
fn digit_str(d: u64) -> (r: &'static str)
    requires
        d < 10,
    ensures
        r@ == seq![digit_char(d as int)],
{
    if d == 0 {
        proof {
            reveal_strlit("0");
            assert("0"@ =~= seq!['0']);
        }
        "0"
    } else if d == 1 {
        proof {
            reveal_strlit("1");
            assert("1"@ =~= seq!['1']);
        }
        "1"
    } else if d == 2 {
        proof {
            reveal_strlit("2");
            assert("2"@ =~= seq!['2']);
        }
        "2"
    } else if d == 3 {
        proof {
            reveal_strlit("3");
            assert("3"@ =~= seq!['3']);
        }
        "3"
    } else if d == 4 {
        proof {
            reveal_strlit("4");
            assert("4"@ =~= seq!['4']);
        }
        "4"
    } else if d == 5 {
        proof {
            reveal_strlit("5");
            assert("5"@ =~= seq!['5']);
        }
        "5"
    } else if d == 6 {
        proof {
            reveal_strlit("6");
            assert("6"@ =~= seq!['6']);
        }
        "6"
    } else if d == 7 {
        proof {
            reveal_strlit("7");
            assert("7"@ =~= seq!['7']);
        }
        "7"
    } else if d == 8 {
        proof {
            reveal_strlit("8");
            assert("8"@ =~= seq!['8']);
        }
        "8"
    } else {
        proof {
            reveal_strlit("9");
            assert("9"@ =~= seq!['9']);
        }
        "9"
    }
}

/// Renders `n` in decimal.
pub fn u64_to_string(n: u64) -> (r: String)
    ensures
        r@ == dec_str(n as int),
    decreases n,
{
    if n < 10 {
        String::from_str(digit_str(n))
    } else {
        let mut r = u64_to_string(n / 10);
        r.append(digit_str(n % 10));
        r
    }
}

impl LinkedList<u64> {
    /// Renders the list as `List(v1, v2, ..., vn)`; the empty list renders
    /// as `List()`.
    pub fn to_display_string(&self) -> (r: String)
        requires
            self.well_formed(),
        ensures
            r@ == display_of(self.seq()),
    {
        let mut r = String::from_str("List(");
        proof {
            reveal_strlit("List(");
            assert("List("@ =~= seq!['L', 'i', 's', 't', '(']);
        }
        let elems = self.elements_string();
        r.append(elems.as_str());
        r.append(")");
        proof {
            reveal_strlit(")");
            assert(")"@ =~= seq![')']);
            assert(r@ =~= display_of(self.seq()));
        }
        r
    }

    /// Renders the elements alone, separated by `, `.
    fn elements_string(&self) -> (r: String)
        requires
            self.well_formed(),
        ensures
            r@ == elems_of(self.seq()),
        decreases self,
    {
        match self {
            LinkedList::Nil => {
                let r = String::new();
                proof {
                    assert(r@ =~= elems_of(self.seq()));
                }
                r
            },
            LinkedList::Tail { head } => {
                let r = u64_to_string(*head);
                proof {
                    assert(self.seq() =~= seq![*head]);
                }
                r
            },
            LinkedList::Link { head, tail } => {
                let mut r = u64_to_string(*head);
                r.append(", ");
                let rest = tail.elements_string();
                r.append(rest.as_str());
                proof {
                    reveal_strlit(", ");
                    assert(", "@ =~= seq![',', ' ']);
                    lemma_well_formed_nonempty(**tail);
                    assert(self.seq().drop_first() =~= tail.seq());
                    assert(r@ =~= elems_of(self.seq()));
                }
                r
            },
        }
    }
}

/// The list built by appending the values of `vs`, in order, to the empty
/// list.
pub open spec fn appended<T>(vs: Seq<T>) -> LinkedList<T>
    decreases vs.len(),
{
    if vs.len() == 0 {
        LinkedList::Nil
    } else {
        appended(vs.drop_last()).spec_append(vs.last())
    }
}

/// Law: any sequence of appends to the empty list yields a well-formed list
/// whose elements are exactly the appended values, in append order. With the
/// contract of `peek`, `peek(i)` on that list returns the `i`-th appended
/// value when `i` is below the count, and fails with `IndexOutOfBounds` at or
/// beyond it.
pub proof fn lemma_appends_from_empty<T>(vs: Seq<T>)
    ensures
        appended(vs).well_formed(),
        appended(vs).seq() == vs,
    decreases vs.len(),
{
    if vs.len() == 0 {
        assert(appended(vs).seq() =~= vs);
    } else {
        lemma_appends_from_empty(vs.drop_last());
        lemma_spec_append_properties(appended(vs.drop_last()), vs.last());
        assert(appended(vs).seq() =~= vs);
    }
}

/// Law: appending to a list never changes what stands at any index of the
/// original list; every valid index of the original reads the same value in
/// the extended list.
pub proof fn lemma_append_preserves_prefix<T>(l: LinkedList<T>, element: T)
    ensures
        forall|i: int|
            0 <= i < l.seq().len() ==> l.spec_append(element).seq()[i] == l.seq()[i],
{
    lemma_spec_append_properties(l, element);
}

/// A well-formed list that is not `Nil` holds at least one element.
proof fn lemma_well_formed_nonempty<T>(l: LinkedList<T>)
    requires
        !(l matches LinkedList::Nil),
    ensures
        l.seq().len() > 0,
{
    match l {
        LinkedList::Nil => {},
        LinkedList::Tail { head } => {},
        LinkedList::Link { head, tail } => {},
    }
}

} // verus!
