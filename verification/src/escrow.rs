//! The escrow store: one pre-funded balance per sender, debited by receipt
//! reservation. `try_subtract` is the only way down, `add` and
//! `increase_escrow` the only ways up.

use vstd::prelude::*;

use crate::addr_map::AddrMap;
use crate::Error;

verus! {

/// Per-sender escrow balances, viewed as a total map that is zero outside
/// the funded accounts.
pub struct EscrowStorage {
    accounts: AddrMap<u128>,
}

impl EscrowStorage {
    /// The table behind the store is well formed.
    pub closed spec fn wf(&self) -> bool {
        self.accounts.wf()
    }

    /// The balance of every address; zero for addresses never funded.
    pub closed spec fn balances(&self) -> Map<[u8; 20], u128> {
        Map::new(
            |a: [u8; 20]| true,
            |a: [u8; 20]|
                if self.accounts.as_map().contains_key(a) {
                    self.accounts.as_map()[a]
                } else {
                    0u128
                },
        )
    }

    /// The balance map is total: every address has a balance.
    pub broadcast proof fn lemma_balances_total(&self)
        ensures
            forall|a: [u8; 20]| (#[trigger] self.balances()).dom().contains(a),
    {
    }

    /// An empty store: every balance is zero.
    pub fn new() -> (r: EscrowStorage)
        ensures
            r.wf(),
            r.balances() =~= Map::new(|a: [u8; 20]| true, |a: [u8; 20]| 0u128),
    {
        EscrowStorage { accounts: AddrMap::new() }
    }

    /// Reads a sender's balance.
    pub fn get_balance(&self, sender: &[u8; 20]) -> (r: u128)
        requires
            self.wf(),
        ensures
            r == self.balances()[*sender],
    {
        match self.accounts.get(sender) {
            Some(balance) => *balance,
            None => 0,
        }
    }

    /// Deposits escrow for a sender. The balance must stay within `u128`.
    pub fn increase_escrow(&mut self, sender: [u8; 20], amount: u128)
        requires
            old(self).wf(),
            old(self).balances()[sender] + amount <= u128::MAX,
        ensures
            final(self).wf(),
            final(self).balances() == old(self).balances().insert(
                sender,
                (old(self).balances()[sender] + amount) as u128,
            ),
    {
        let balance = self.get_balance(&sender);
        self.accounts.set(sender, balance + amount);
        proof {
            assert(final(self).balances() =~= old(self).balances().insert(
                sender,
                (old(self).balances()[sender] + amount) as u128,
            ));
        }
    }

    /// Atomically debits a sender, failing with `InsufficientEscrow` exactly
    /// when the balance cannot cover the amount; on failure nothing changes.
    pub fn try_subtract(&mut self, sender: [u8; 20], amount: u128) -> (r: Result<(), Error>)
        requires
            old(self).wf(),
        ensures
            final(self).wf(),
            r matches Ok(()) ==> {
                &&& amount <= old(self).balances()[sender]
                &&& final(self).balances() == old(self).balances().insert(
                    sender,
                    (old(self).balances()[sender] - amount) as u128,
                )
            },
            r matches Err(e) ==> {
                &&& e is InsufficientEscrow
                &&& amount > old(self).balances()[sender]
                &&& *final(self) == *old(self)
            },
    {
        match self.accounts.find(&sender) {
            Some(i) => {
                proof {
                    crate::addr_map::lemma_entries_map_index(self.accounts.entries@, i as int);
                }
                let balance = self.accounts.entries[i].1;
                if amount > balance {
                    Err(Error::InsufficientEscrow)
                } else {
                    self.accounts.set(sender, balance - amount);
                    proof {
                        assert(final(self).balances() =~= old(self).balances().insert(
                            sender,
                            (old(self).balances()[sender] - amount) as u128,
                        ));
                    }
                    Ok(())
                }
            },
            None => {
                if amount == 0 {
                    proof {
                        assert(final(self).balances() =~= old(self).balances().insert(
                            sender,
                            (old(self).balances()[sender] - 0) as u128,
                        ));
                    }
                    Ok(())
                } else {
                    Err(Error::InsufficientEscrow)
                }
            },
        }
    }

    /// Credits a sender back after a failed reservation; the compensating
    /// half of `try_subtract`, so the sum must stay within `u128`.
    pub fn add(&mut self, sender: [u8; 20], amount: u128)
        requires
            old(self).wf(),
            old(self).balances()[sender] + amount <= u128::MAX,
        ensures
            final(self).wf(),
            final(self).balances() == old(self).balances().insert(
                sender,
                (old(self).balances()[sender] + amount) as u128,
            ),
    {
        self.increase_escrow(sender, amount);
    }
}

} // verus!
