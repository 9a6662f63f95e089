//! A stream that carries framed messages: messages of type `In` come in,
//! messages of type `Out` go out.
use vstd::prelude::*;

verus! {

pub struct AsyncProstStream<S, In, Out> {
    pub inner: S,
    pub incoming: std::marker::PhantomData<In>,
    pub outgoing: std::marker::PhantomData<Out>,
}

impl<S, In, Out> AsyncProstStream<S, In, Out> {
    /// A framed stream over `inner`.
    pub fn new(inner: S) -> (s: Self)
        ensures
            s.inner == inner,
    {
        AsyncProstStream { inner, incoming: std::marker::PhantomData, outgoing: std::marker::PhantomData }
    }
}

} // verus!
