use vstd::prelude::*;

verus! {

/// A vector that holds at least one element.
pub struct NonEmptyVec<T> {
    first: T,
    rest: Vec<T>,
}

impl<T> View for NonEmptyVec<T> {
    type V = Seq<T>;

    /// The elements, first one first.
    closed spec fn view(&self) -> Seq<T> {
        seq![self.first].add(self.rest@)
    }
}

/// A non-empty vector never holds zero elements.
pub proof fn law_never_empty<T>(ne: NonEmptyVec<T>)
    ensures
        ne@.len() > 0,
{
}

impl<T> NonEmptyVec<T> {
    /// Wraps `v`, or gives `None` when `v` is empty.
    pub fn try_new(v: Vec<T>) -> (r: Option<Self>)
        ensures
            r is None <==> v@.len() == 0,
            r matches Some(ne) ==> ne@ == v@,
    {
        let mut v = v;
        if v.is_empty() {
            return None;
        }
        let ghost whole = v@;
        let first = v.remove(0);
        assert(seq![first].add(v@) =~= whole);
        Some(NonEmptyVec { first, rest: v })
    }

    /// The elements, in order, as a plain vector.
    pub fn into_vec(self) -> (r: Vec<T>)
        ensures
            r@ == self@,
            r@.len() > 0,
    {
        let NonEmptyVec { first, rest } = self;
        let mut rest = rest;
        let mut out: Vec<T> = Vec::new();
        out.push(first);
        out.append(&mut rest);
        assert(out@ =~= seq![first].add(self.rest@));
        out
    }
}

} // verus!
