//! A sequence that is guaranteed, from construction on, to hold at least one
//! element. The remote API requires at least one address wherever an address
//! list appears, both outbound (glue create and update parameters) and inbound
//! (an address family that is present must supply at least one address).

use vstd::prelude::*;

verus! {

/// A sequence with at least one element.
///
/// The only construction path is [`NonEmptySequence::construct`], which
/// refuses an empty input; no operation of the type removes elements, so the
/// invariant holds for the value's entire lifetime.
#[derive(Debug)]
pub struct NonEmptySequence<T> {
    items: Vec<T>,
}

impl<T> View for NonEmptySequence<T> {
    type V = Seq<T>;

    closed spec fn view(&self) -> Seq<T> {
        self.items@
    }
}

impl<T> NonEmptySequence<T> {
    #[verifier::type_invariant]
    spec fn at_least_one(self) -> bool {
        self@.len() >= 1
    }

    /// Builds a non-empty sequence from `items`, preserving the elements and
    /// their order; fails with [`ConstructionError::EmptyInput`] if and only
    /// if `items` has zero elements.
    pub fn construct(items: Vec<T>) -> (r: Result<Self, crate::ConstructionError>)
        ensures
            r is Err <==> items@.len() == 0,
            r matches Err(e) ==> e == crate::ConstructionError::EmptyInput,
            r matches Ok(s) ==> s@ == items@,
    {
        if items.len() == 0 {
            Err(crate::ConstructionError::EmptyInput)
        } else {
            Ok(NonEmptySequence { items })
        }
    }

    /// The number of elements; always at least one.
    pub fn len(&self) -> (r: usize)
        ensures
            r == self@.len(),
            r >= 1,
    {
        proof {
            use_type_invariant(self);
        }
        self.items.len()
    }

    /// The element at position `i`.
    pub fn get(&self, i: usize) -> (r: &T)
        requires
            i < self@.len(),
        ensures
            *r == self@[i as int],
    {
        &self.items[i]
    }
}

} // verus!
