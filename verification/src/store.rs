//! One named namespace of the embedded, ordered, durable key-value store.
//!
//! A [`Namespace`] wraps one `sled::Tree`. Its contents are modelled by the
//! abstract map [`ns_contents`]; every operation of the store that the core
//! uses is a trusted wrapper whose contract states, over that map, what the
//! operation does. Each underlying tree must be wrapped exactly once: two
//! `Namespace` values must never share a tree.

use vstd::prelude::*;

use crate::error::ApiError;

verus! {

#[verifier::external_type_specification]
#[verifier::external_body]
pub struct ExSledTree(sled::Tree);

/// A handle on one namespace ("tree") of the embedded store.
#[verifier::external_body]
pub struct Namespace {
    tree: sled::Tree,
}

/// The key-value pairs currently held by the namespace.
pub uninterp spec fn ns_contents(ns: &Namespace) -> Map<Seq<u8>, Seq<u8>>;

/// `entries` enumerates exactly the pairs of `m`, each key once.
pub open spec fn scan_matches(m: Map<Seq<u8>, Seq<u8>>, entries: Seq<(Vec<u8>, Vec<u8>)>) -> bool {
    &&& forall|i: int|
        0 <= i < entries.len() ==> m.contains_key((#[trigger] entries[i]).0@) && m[entries[i].0@]
            == entries[i].1@
    &&& forall|k: Seq<u8>|
        #[trigger] m.contains_key(k) ==> exists|i: int|
            0 <= i < entries.len() && (#[trigger] entries[i]).0@ == k
    &&& forall|i: int, j: int|
        0 <= i < j < entries.len() ==> (#[trigger] entries[i]).0@ != (#[trigger] entries[j]).0@
}

impl Namespace {
    /// Wraps an already-opened tree of the store. The caller must hand each
    /// tree to at most one `Namespace`.
    #[verifier::external_body]
    pub fn from_tree(tree: sled::Tree) -> Namespace {
        Namespace { tree }
    }

    /// Relies on `sled::Tree::get`: returns the value stored at the key, if
    /// any.
    #[verifier::external_body]
    pub fn get(&self, key: &Vec<u8>) -> (r: Result<Option<Vec<u8>>, ApiError>)
        ensures
            r matches Ok(Some(v)) ==> ns_contents(self).contains_key(key@) && ns_contents(self)[key@]
                == v@,
            r matches Ok(None) ==> !ns_contents(self).contains_key(key@),
            r matches Err(e) ==> e == ApiError::Internal,
    {
        match self.tree.get(key) {
            Ok(Some(v)) => Ok(Some(v.to_vec())),
            Ok(None) => Ok(None),
            Err(_) => Err(ApiError::Internal),
        }
    }

    /// Relies on `sled::Tree::insert`: on success the key maps to the value;
    /// after a failure nothing is assumed of the contents.
    #[verifier::external_body]
    pub fn set(&mut self, key: &Vec<u8>, value: Vec<u8>) -> (r: Result<(), ApiError>)
        ensures
            r is Ok ==> ns_contents(final(self)) == ns_contents(old(self)).insert(key@, value@),
            r matches Err(e) ==> e == ApiError::Internal,
    {
        match self.tree.insert(key, value) {
            Ok(_) => Ok(()),
            Err(_) => Err(ApiError::Internal),
        }
    }

    /// Relies on `sled::Tree::update_and_fetch`: atomically replaces the value
    /// at the key; after a failure nothing is assumed of the contents.
    #[verifier::external_body]
    pub fn update(&mut self, key: &Vec<u8>, value: Vec<u8>) -> (r: Result<(), ApiError>)
        ensures
            r is Ok ==> ns_contents(final(self)) == ns_contents(old(self)).insert(key@, value@),
            r matches Err(e) ==> e == ApiError::Internal,
    {
        match self.tree.update_and_fetch(key, |_| Some(value.clone())) {
            Ok(_) => Ok(()),
            Err(_) => Err(ApiError::Internal),
        }
    }

    /// Relies on `sled::Tree::remove`: on success the key is absent; after a
    /// failure nothing is assumed of the contents.
    #[verifier::external_body]
    pub fn remove(&mut self, key: &Vec<u8>) -> (r: Result<(), ApiError>)
        ensures
            r is Ok ==> ns_contents(final(self)) == ns_contents(old(self)).remove(key@),
            r matches Err(e) ==> e == ApiError::Internal,
    {
        match self.tree.remove(key) {
            Ok(_) => Ok(()),
            Err(_) => Err(ApiError::Internal),
        }
    }

    /// Relies on `sled::Tree::iter`: yields every stored pair exactly once;
    /// an iteration error aborts the whole scan.
    #[verifier::external_body]
    pub fn scan(&self) -> (r: Result<Vec<(Vec<u8>, Vec<u8>)>, ApiError>)
        ensures
            r matches Ok(entries) ==> scan_matches(ns_contents(self), entries@),
            r matches Err(e) ==> e == ApiError::Internal,
    {
        let mut out: Vec<(Vec<u8>, Vec<u8>)> = Vec::new();
        for item in self.tree.iter() {
            match item {
                Ok((k, v)) => out.push((k.to_vec(), v.to_vec())),
                Err(_) => return Err(ApiError::Internal),
            }
        }
        Ok(out)
    }

    /// Relies on `sled::Tree::flush`: a durability barrier; the contents are
    /// not changed.
    #[verifier::external_body]
    pub fn flush(&self) -> (r: Result<(), ApiError>)
        ensures
            r matches Err(e) ==> e == ApiError::Internal,
    {
        match self.tree.flush() {
            Ok(_) => Ok(()),
            Err(_) => Err(ApiError::Internal),
        }
    }
}

} // verus!
