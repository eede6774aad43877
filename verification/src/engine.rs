//! What every storage engine offers.

use crate::error::KvsError;
use crate::store::KvStore;
use vstd::prelude::*;

verus! {

/// A key/value storage engine. An engine says of each operation what the
/// operation makes of it; every operation keeps the engine fit for use.
pub trait KvsEngine: Sized {
    /// Whether the engine is fit for use.
    spec fn inv(&self) -> bool;

    /// What `set` makes of the engine `before`: the engine `after` and the
    /// result `r`.
    spec fn did_set(
        before: Self,
        key: Seq<char>,
        value: Seq<char>,
        after: Self,
        r: Result<(), KvsError>,
    ) -> bool;

    /// What `get` makes of the engine `before`: the engine `after` and the
    /// result `r`.
    spec fn did_get(
        before: Self,
        key: Seq<char>,
        after: Self,
        r: Result<Option<String>, KvsError>,
    ) -> bool;

    /// What `remove` makes of the engine `before`: the engine `after` and
    /// the result `r`.
    spec fn did_remove(before: Self, key: Seq<char>, after: Self, r: Result<(), KvsError>) -> bool;

    /// Binds `key` to `value`, in place of what it was bound to.
    fn set(&mut self, key: String, value: String) -> (r: Result<(), KvsError>)
        requires
            old(self).inv(),
        ensures
            final(self).inv(),
            Self::did_set(*old(self), key@, value@, *final(self), r),
    ;

    /// The value that `key` is bound to, if it is bound.
    fn get(&mut self, key: String) -> (r: Result<Option<String>, KvsError>)
        requires
            old(self).inv(),
        ensures
            final(self).inv(),
            Self::did_get(*old(self), key@, *final(self), r),
    ;

    /// Unbinds `key`. A key that is not bound is an error.
    fn remove(&mut self, key: String) -> (r: Result<(), KvsError>)
        requires
            old(self).inv(),
        ensures
            final(self).inv(),
            Self::did_remove(*old(self), key@, *final(self), r),
    ;
}

impl KvsEngine for KvStore {
    open spec fn inv(&self) -> bool {
        self.wf()
    }

    open spec fn did_set(
        before: Self,
        key: Seq<char>,
        value: Seq<char>,
        after: Self,
        r: Result<(), KvsError>,
    ) -> bool {
        KvStore::set_post(before, key, value, after, r)
    }

    open spec fn did_get(
        before: Self,
        key: Seq<char>,
        after: Self,
        r: Result<Option<String>, KvsError>,
    ) -> bool {
        KvStore::get_post(before, key, after, r)
    }

    open spec fn did_remove(before: Self, key: Seq<char>, after: Self, r: Result<(), KvsError>) -> bool {
        KvStore::remove_post(before, key, after, r)
    }

    fn set(&mut self, key: String, value: String) -> (r: Result<(), KvsError>) {
        KvStore::set(self, key, value)
    }

    fn get(&mut self, key: String) -> (r: Result<Option<String>, KvsError>) {
        KvStore::get(self, key)
    }

    fn remove(&mut self, key: String) -> (r: Result<(), KvsError>) {
        KvStore::remove(self, key)
    }
}

} // verus!
