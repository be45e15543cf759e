//! Copying lists element by element.

use vstd::prelude::*;

verus! {

/// A clone of a `T` has the same content as the original.
pub open spec fn clone_keeps_content<T: Clone + DeepView>() -> bool {
    forall|a: T, b: T| #[trigger] call_ensures(T::clone, (&a,), b) ==> a.deep_view() == b.deep_view()
}

/// A copy of `list`, element by element.
pub fn copy_list<T: Clone + DeepView>(list: &Vec<T>) -> (r: Vec<T>)
    requires
        clone_keeps_content::<T>(),
    ensures
        r.deep_view() == list.deep_view(),
{
    let mut r: Vec<T> = Vec::new();
    let mut i: usize = 0;
    while i < list.len()
        invariant
            i <= list.len(),
            clone_keeps_content::<T>(),
            r.deep_view() =~= list.deep_view().subrange(0, i as int),
        decreases list.len() - i,
    {
        let ghost prev = r.deep_view();
        let c = list[i].clone();
        assert(c.deep_view() == list@[i as int].deep_view());
        r.push(c);
        assert(r.deep_view() =~= prev.push(list.deep_view()[i as int]));
        assert(list.deep_view().subrange(0, i + 1) =~= list.deep_view().subrange(0, i as int).push(
            list.deep_view()[i as int],
        ));
        i = i + 1;
    }
    assert(r.deep_view() =~= list.deep_view());
    r
}

} // verus!
