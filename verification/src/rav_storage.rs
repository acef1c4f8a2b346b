//! An in-memory RAV storage backend: vouchers filed under incrementing ids.
//! A reference implementation of the storage contract, also used by tests.

use vstd::prelude::*;

use crate::rav::SignedRAV;
use std::collections::HashMap;

verus! {

broadcast use vstd::std_specs::hash::group_hash_axioms;

/// The error the in-memory backend reports: a missing id, or an exhausted
/// id space.
#[derive(Debug)]
#[allow(non_snake_case)]
pub enum AdpaterErrorMock {
    AdapterError { Error: String },
}

/// RAV storage over a hash map keyed by a `u64` id that grows by one per
/// stored voucher.
#[derive(Default)]
pub struct RAVStorageAdapterMock {
    rav_storage: HashMap<u64, SignedRAV>,
    unique_id: u64,
}

impl RAVStorageAdapterMock {
    /// The vouchers on file, by id.
    pub closed spec fn stored(&self) -> Map<u64, SignedRAV> {
        self.rav_storage@
    }

    /// The id the next voucher will receive.
    pub closed spec fn next_id(&self) -> u64 {
        self.unique_id
    }

    /// An empty store; ids start at zero.
    pub fn new() -> (r: Self)
        ensures
            r.stored() == Map::<u64, SignedRAV>::empty(),
            r.next_id() == 0,
    {
        RAVStorageAdapterMock { rav_storage: HashMap::<u64, SignedRAV>::new(), unique_id: 0u64 }
    }

    /// Files a voucher under the next id and returns that id. Fails only
    /// when the id space is exhausted, leaving the store unchanged.
    pub fn store_rav(&mut self, rav: SignedRAV) -> (r: Result<u64, AdpaterErrorMock>)
        ensures
            r matches Ok(id) ==> {
                &&& id == old(self).next_id()
                &&& final(self).stored() == old(self).stored().insert(id, rav)
                &&& final(self).next_id() == old(self).next_id() + 1
            },
            r matches Err(_) ==> {
                &&& old(self).next_id() == u64::MAX
                &&& final(self).stored() == old(self).stored()
                &&& final(self).next_id() == old(self).next_id()
            },
    {
        if self.unique_id == u64::MAX {
            return Err(AdpaterErrorMock::AdapterError {
                Error: string_of_str("RAV id space exhausted"),
            });
        }
        let id = self.unique_id;
        self.rav_storage.insert(id, rav);
        self.unique_id = self.unique_id + 1;
        Ok(id)
    }

    /// Retrieves the voucher filed under an id; fails exactly when the id is
    /// unknown.
    pub fn retrieve_rav_by_id(&self, rav_id: u64) -> (r: Result<SignedRAV, AdpaterErrorMock>)
        ensures
            r matches Ok(rav) ==> self.stored().contains_key(rav_id) && rav == self.stored().index(
                rav_id,
            ),
            r matches Err(_) ==> !self.stored().contains_key(rav_id),
    {
        match self.rav_storage.get(&rav_id) {
            Some(rav) => Ok(*rav),
            None => Err(AdpaterErrorMock::AdapterError {
                Error: string_of_str("No RAV found with ID"),
            }),
        }
    }

    /// Removes the voucher filed under an id; fails exactly when the id is
    /// unknown, leaving the store unchanged.
    pub fn remove_rav_by_id(&mut self, rav_id: u64) -> (r: Result<(), AdpaterErrorMock>)
        ensures
            final(self).next_id() == old(self).next_id(),
            r matches Ok(()) ==> {
                &&& old(self).stored().contains_key(rav_id)
                &&& final(self).stored() == old(self).stored().remove(rav_id)
            },
            r matches Err(_) ==> {
                &&& !old(self).stored().contains_key(rav_id)
                &&& final(self).stored() == old(self).stored()
            },
    {
        match self.rav_storage.remove(&rav_id) {
            Some(_) => Ok(()),
            None => Err(AdpaterErrorMock::AdapterError {
                Error: string_of_str("No RAV found with ID"),
            }),
        }
    }
}

/// Builds an owned `String` from a literal.
fn string_of_str(s: &str) -> (r: String)
    ensures
        r@ == s@,
{
    s.to_owned()
}

} // verus!
