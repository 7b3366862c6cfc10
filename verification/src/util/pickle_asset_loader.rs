use vstd::prelude::*;

use std::marker::PhantomData;

verus! {

/// Loads assets of type `A` from pickle files with the given extensions.
pub struct PickleAssetPlugin<A> {
    extensions: Vec<&'static str>,
    _marker: PhantomData<A>,
}

impl<A> PickleAssetPlugin<A> {
    /// The file extensions served.
    pub closed spec fn extensions_spec(&self) -> Seq<&'static str> {
        self.extensions@
    }

    /// Create a new plugin that will load assets from files with the given extensions.
    pub fn new(extensions: &[&'static str]) -> (p: Self)
        ensures
            p.extensions_spec() == extensions@,
    {
        let mut list: Vec<&'static str> = Vec::new();
        let mut i: usize = 0;
        while i < extensions.len()
            invariant
                i <= extensions@.len(),
                list@ == extensions@.take(i as int),
            decreases extensions@.len() - i,
        {
            list.push(extensions[i]);
            proof {
                assert(extensions@.take(i + 1) =~= extensions@.take(i as int).push(extensions@[i as int]));
            }
            i += 1;
        }
        proof {
            assert(extensions@.take(extensions@.len() as int) =~= extensions@);
        }
        PickleAssetPlugin { extensions: list, _marker: PhantomData }
    }

    /// The file extensions served.
    pub fn extensions(&self) -> (e: &[&'static str])
        ensures
            e@ == self.extensions_spec(),
    {
        self.extensions.as_slice()
    }
}

} // verus!
