//! Copying values: a copy has the same mathematical content.

use vstd::prelude::*;

verus! {

/// Values that can be copied without losing anything of their content.
pub trait Duplicate: DeepView + Sized {
    /// A copy with the same content.
    fn duplicate(&self) -> (r: Self)
        ensures
            r.deep_view() == self.deep_view(),
    ;
}

impl Duplicate for String {
    fn duplicate(&self) -> (r: Self) {
        self.clone()
    }
}

impl Duplicate for u32 {
    fn duplicate(&self) -> (r: Self) {
        *self
    }
}

impl Duplicate for u64 {
    fn duplicate(&self) -> (r: Self) {
        *self
    }
}

impl Duplicate for i32 {
    fn duplicate(&self) -> (r: Self) {
        *self
    }
}

impl Duplicate for usize {
    fn duplicate(&self) -> (r: Self) {
        *self
    }
}

impl Duplicate for bool {
    fn duplicate(&self) -> (r: Self) {
        *self
    }
}

impl<T: Duplicate> Duplicate for Option<T> {
    fn duplicate(&self) -> (r: Self) {
        match self {
            Some(v) => Some(v.duplicate()),
            None => None,
        }
    }
}

impl<T: Duplicate> Duplicate for Vec<T> {
    fn duplicate(&self) -> (r: Self) {
        let mut out: Vec<T> = Vec::new();
        let mut i: usize = 0;
        while i < self.len()
            invariant
                i <= self@.len(),
                out@.len() == i,
                forall|k: int| 0 <= k < i ==> out@[k].deep_view() == self@[k].deep_view(),
            decreases self@.len() - i,
        {
            let item: T = self[i].duplicate();
            out.push(item);
            i += 1;
        }
        assert(out.deep_view() =~= self.deep_view());
        out
    }
}

/// Adds an item at the end.
pub fn push_item<T: DeepView>(list: &mut Vec<T>, item: T)
    ensures
        final(list).deep_view() == old(list).deep_view().push(item.deep_view()),
{
    list.push(item);
    assert(list.deep_view() =~= old(list).deep_view().push(item.deep_view()));
}

/// Adds all items of `other` at the end.
pub fn append_items<T: DeepView>(list: &mut Vec<T>, other: Vec<T>)
    ensures
        final(list).deep_view() == old(list).deep_view() + other.deep_view(),
{
    let mut rest: Vec<T> = other;
    list.append(&mut rest);
    assert(list.deep_view() =~= old(list).deep_view() + other.deep_view());
}

/// A list with nothing in it.
pub fn no_items<T: DeepView>() -> (r: Vec<T>)
    ensures
        r.deep_view() == Seq::<T::V>::empty(),
{
    let out: Vec<T> = Vec::new();
    assert(out.deep_view() =~= Seq::<T::V>::empty());
    out
}

/// A list with one item.
pub fn one_item<T: DeepView>(item: T) -> (r: Vec<T>)
    ensures
        r.deep_view() == seq![item.deep_view()],
{
    let mut out: Vec<T> = Vec::new();
    out.push(item);
    assert(out.deep_view() =~= seq![item.deep_view()]);
    out
}

/// The content of a result.
pub open spec fn outcome<T: DeepView, E: DeepView>(r: Result<T, E>) -> Result<T::V, E::V> {
    match r {
        Ok(value) => Ok(value.deep_view()),
        Err(error) => Err(error.deep_view()),
    }
}

} // verus!
