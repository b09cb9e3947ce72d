//! Shared, read-only tablet data, and the serializer and cache policy interfaces
//! of the tablet data cache.

use std::rc::Rc;
use vstd::prelude::*;

verus! {

/// Read-only shared access to a piece of tablet data.
pub struct TabletData<T> {
    data: Rc<T>,
}

impl<T> TabletData<T> {
    /// Wraps `t` for shared access.
    pub fn create(t: T) -> (r: Self)
        ensures
            r.value() == t,
    {
        TabletData { data: Rc::new(t) }
    }

    /// The data held.
    pub closed spec fn value(&self) -> T {
        *self.data
    }

    /// Borrows the data held.
    pub fn get(&self) -> (r: &T)
        ensures
            *r == self.value(),
    {
        &*self.data
    }

    /// Another handle on the same data.
    pub fn share(&self) -> (r: Self)
        ensures
            r.value() == self.value(),
    {
        TabletData { data: Rc::clone(&self.data) }
    }
}

/// Turns tablet data of type `T` into bytes and back, and measures it for the
/// cache's bookkeeping.
pub trait TabletDataSerializer<T> {
    /// The bytes that `tablet_object` serializes to, if it can be serialized.
    spec fn serialized(&self, tablet_object: T) -> Option<Seq<u8>>;

    /// Whether `tablet_data` of table `table_name` can be deserialized.
    spec fn deserializes(&self, table_name: Seq<char>, tablet_data: Seq<u8>) -> bool;

    /// The size that the cache counts for `tablet_object`.
    spec fn size_of(&self, tablet_object: T) -> nat;

    fn serialize(&self, tablet_object: &T) -> (r: Result<Vec<u8>, ()>)
        ensures
            match self.serialized(*tablet_object) {
                Some(b) => r matches Ok(v) && v@ == b,
                None => r is Err,
            },
    ;

    fn deserialize(&self, table_name: &String, tablet_data: Vec<u8>) -> (r: Result<T, ()>)
        ensures
            r is Ok <==> self.deserializes(table_name@, tablet_data@),
            r matches Ok(t) ==> self.serialized(t) == Some(tablet_data@),
    ;

    fn get_size(&self, tablet_object: &T) -> (r: usize)
        ensures
            r as nat == self.size_of(*tablet_object),
    ;
}

/// The serializer of tablet data that already is bytes: the bytes are the data,
/// every byte string is a tablet, and the size is the length.
pub struct BytesTabletDataSerializer {}

impl TabletDataSerializer<Vec<u8>> for BytesTabletDataSerializer {
    open spec fn serialized(&self, tablet_object: Vec<u8>) -> Option<Seq<u8>> {
        Some(tablet_object@)
    }

    open spec fn deserializes(&self, table_name: Seq<char>, tablet_data: Seq<u8>) -> bool {
        true
    }

    open spec fn size_of(&self, tablet_object: Vec<u8>) -> nat {
        tablet_object@.len()
    }

    fn serialize(&self, tablet_object: &Vec<u8>) -> (r: Result<Vec<u8>, ()>) {
        Ok(vstd::slice::slice_to_vec(tablet_object.as_slice()))
    }

    fn deserialize(&self, table_name: &String, tablet_data: Vec<u8>) -> (r: Result<Vec<u8>, ()>) {
        Ok(tablet_data)
    }

    fn get_size(&self, tablet_object: &Vec<u8>) -> (r: usize) {
        tablet_object.len()
    }
}

/// Decides which cached tablets the tablet data cache evicts.
pub trait TabletDataCachePolicy {

}

/// The cache policy used by default.
pub struct DefaultTabletDataCachePolicy {}

impl TabletDataCachePolicy for DefaultTabletDataCachePolicy {

}

/// A cache of recently used tablet data, under a soft capacity limit that it may
/// exceed for a while.
#[verifier::reject_recursive_types(T)]
pub struct DefaultTabletDataCache<T> {
    cache_capacity: u64,
    tablet_serializer: Box<dyn TabletDataSerializer<T>>,
    tablet_cache_policy: Box<dyn TabletDataCachePolicy>,
}

impl<T> DefaultTabletDataCache<T> {
    /// A cache with the given soft capacity, serializer and eviction policy.
    pub fn create(
        cache_capacity: u64,
        tablet_serializer: Box<dyn TabletDataSerializer<T>>,
        tablet_cache_policy: Box<dyn TabletDataCachePolicy>,
    ) -> (r: Self)
        ensures
            r.capacity() == cache_capacity,
    {
        DefaultTabletDataCache { cache_capacity, tablet_serializer, tablet_cache_policy }
    }

    /// The soft capacity limit.
    pub closed spec fn capacity(&self) -> u64 {
        self.cache_capacity
    }

    /// The soft capacity limit.
    pub fn cache_capacity(&self) -> (r: u64)
        ensures
            r == self.capacity(),
    {
        self.cache_capacity
    }
}

} // verus!
