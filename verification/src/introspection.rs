use vstd::prelude::*;

verus! {

/// Implementors are expected to return a dummy object with all public fields.
pub trait Introspect<T> {
    fn introspect(&self) -> T;
}

impl<I, O> Introspect<Vec<O>> for Vec<I>
    where I: Introspect<O>
{
    fn introspect(&self) -> (result: Vec<O>)
        ensures
            result@.len() == self@.len(),
            forall|i: int| 0 <= i < self@.len() ==> call_ensures(<I as Introspect<O>>::introspect, (&self@[i],), #[trigger] result@[i]),
    {
        let mut result = Vec::new();
        let mut i: usize = 0;
        while i < self.len()
            invariant
                i <= self@.len(),
                result@.len() == i,
                forall|k: int| 0 <= k < i ==> call_ensures(<I as Introspect<O>>::introspect, (&self@[k],), #[trigger] result@[k]),
            decreases self@.len() - i,
        {
            let item = self[i].introspect();
            result.push(item);
            i = i + 1;
        }
        result
    }
}

} // verus!
