//! The wallet collection: wallets keyed by their address.
//!
//! The collection itself is kept in memory; loading and saving a wallet
//! file is the embedding program's concern, which rebuilds the collection
//! through `add_wallet`.

use vstd::prelude::*;
use vstd::string::StringExecFns;
use crate::error::BlockchainError;
use crate::utils::str_eq;
use crate::wallet::{Wallet, address_of_pkh, hash_pub_key_of, addr_valid};
use crate::utils::public_key_of;

verus! {

/// One stored wallet with its address.
pub struct WalletEntry {
    pub address: String,
    pub wallet: Wallet,
}

/// The mathematical value of a `WalletEntry`.
pub ghost struct WalletEntryV {
    pub address: Seq<char>,
    pub pkcs8: Seq<u8>,
    pub public_key: Seq<u8>,
}

impl View for WalletEntry {
    type V = WalletEntryV;

    open spec fn view(&self) -> WalletEntryV {
        WalletEntryV {
            address: self.address@,
            pkcs8: self.wallet.pkcs8@,
            public_key: self.wallet.public_key@,
        }
    }
}

/// The values of a sequence of entries.
pub open spec fn wallets_view(s: Seq<WalletEntry>) -> Seq<WalletEntryV> {
    s.map_values(|e: WalletEntry| e@)
}

/// Whether an address is present.
pub open spec fn wallet_known(s: Seq<WalletEntryV>, address: Seq<char>) -> bool {
    exists|i: int| 0 <= i < s.len() && (#[trigger] s[i]).address == address
}

/// A well-formed collection: addresses unique.
pub open spec fn wallets_wf(s: Seq<WalletEntryV>) -> bool {
    forall|i: int, j: int|
        0 <= i < j < s.len() ==> (#[trigger] s[i]).address != (#[trigger] s[j]).address
}

/// The wallet collection.
pub struct Wallets {
    pub wallets: Vec<WalletEntry>,
}

impl View for Wallets {
    type V = Seq<WalletEntryV>;

    open spec fn view(&self) -> Seq<WalletEntryV> {
        wallets_view(self.wallets@)
    }
}

impl Wallets {
    /// An empty collection.
    pub fn new() -> (r: Wallets)
        ensures
            r@ == Seq::<WalletEntryV>::empty(),
            wallets_wf(r@),
    {
        let r = Wallets { wallets: Vec::new() };
        proof {
            assert(r@ =~= Seq::<WalletEntryV>::empty());
        }
        r
    }

    /// Stores a wallet under its derived address and returns the address;
    /// a wallet already stored under that address is replaced.
    pub fn add_wallet(&mut self, wallet: &Wallet) -> (r: String)
        requires
            wallets_wf(old(self)@),
        ensures
            wallets_wf(final(self)@),
            r@ == address_of_pkh(hash_pub_key_of(wallet.public_key@)),
            addr_valid(r@),
            wallet_known(final(self)@, r@),
            !wallet_known(old(self)@, r@) ==> final(self)@ == old(self)@.push(
                WalletEntryV {
                    address: r@,
                    pkcs8: wallet.pkcs8@,
                    public_key: wallet.public_key@,
                },
            ),
            wallet_known(old(self)@, r@) ==> exists|p: int|
                0 <= p < old(self)@.len() && (#[trigger] old(self)@[p]).address == r@
                    && final(self)@ == old(self)@.update(
                    p,
                    WalletEntryV {
                        address: r@,
                        pkcs8: wallet.pkcs8@,
                        public_key: wallet.public_key@,
                    },
                ),
    {
        let address = wallet.get_address();
        let ghost a = address@;
        let ghost entry_v = WalletEntryV {
            address: a,
            pkcs8: wallet.pkcs8@,
            public_key: wallet.public_key@,
        };
        let mut i: usize = 0;
        while i < self.wallets.len()
            invariant
                i <= self.wallets@.len(),
                self@.len() == self.wallets@.len(),
                self@ == old(self)@,
                wallets_wf(old(self)@),
                a == address@,
                entry_v == (WalletEntryV {
                    address: address@,
                    pkcs8: wallet.pkcs8@,
                    public_key: wallet.public_key@,
                }),
                address@ == address_of_pkh(hash_pub_key_of(wallet.public_key@)),
                addr_valid(address@),
                forall|k: int| 0 <= k < i ==> (#[trigger] self@[k]).address != a,
            decreases self.wallets@.len() - i,
        {
            if str_eq(self.wallets[i].address.as_str(), address.as_str()) {
                let entry = WalletEntry {
                    address: address.clone(),
                    wallet: wallet.clone_wallet(),
                };
                self.wallets.remove(i);
                self.wallets.insert(i, entry);
                proof {
                    assert(self@ =~= old(self)@.update(i as int, entry_v));
                    assert(old(self)@[i as int].address == a);
                    assert(self@[i as int].address == a);
                    assert(wallets_wf(self@)) by {
                        assert forall|x: int, y: int|
                            0 <= x < y < self@.len() implies (#[trigger] self@[x]).address != (
                        #[trigger] self@[y]).address by {
                            assert(old(self)@[x].address != old(self)@[y].address);
                        };
                    };
                }
                return address;
            }
            i = i + 1;
        }
        let entry = WalletEntry { address: address.clone(), wallet: wallet.clone_wallet() };
        self.wallets.push(entry);
        proof {
            assert(self@ =~= old(self)@.push(entry_v));
            assert(self@[self@.len() - 1].address == a);
            assert(wallets_wf(self@)) by {
                assert forall|x: int, y: int|
                    0 <= x < y < self@.len() implies (#[trigger] self@[x]).address != (
                #[trigger] self@[y]).address by {
                    if y < self@.len() - 1 {
                        assert(old(self)@[x].address != old(self)@[y].address);
                    }
                };
            };
        }
        address
    }

    /// Generates a fresh wallet, stores it under its address and returns
    /// the address: exactly one mapping is added (or, on an address
    /// collision, replaced), and every other stored wallet is kept.
    pub fn create_wallet(&mut self) -> (r: Result<String, BlockchainError>)
        requires
            wallets_wf(old(self)@),
        ensures
            wallets_wf(final(self)@),
            match r {
                Ok(addr) => {
                    &&& addr_valid(addr@)
                    &&& wallet_known(final(self)@, addr@)
                    &&& !wallet_known(old(self)@, addr@) ==> {
                        &&& final(self)@.len() == old(self)@.len() + 1
                        &&& final(self)@.drop_last() == old(self)@
                        &&& final(self)@.last().address == addr@
                        &&& addr@ == address_of_pkh(
                            hash_pub_key_of(final(self)@.last().public_key),
                        )
                        &&& final(self)@.last().public_key == public_key_of(
                            final(self)@.last().pkcs8,
                        )
                    }
                    &&& wallet_known(old(self)@, addr@) ==> exists|p: int|
                        {
                            &&& 0 <= p < old(self)@.len()
                            &&& (#[trigger] old(self)@[p]).address == addr@
                            &&& final(self)@.len() == old(self)@.len()
                            &&& final(self)@[p].address == addr@
                            &&& forall|q: int|
                                0 <= q < old(self)@.len() && q != p ==> final(self)@[q] == old(
                                    self,
                                )@[q]
                        }
                },
                Err(e) => {
                    &&& e is WalletError
                    &&& final(self)@ == old(self)@
                },
            },
    {
        let wallet = match Wallet::new() {
            Ok(w) => w,
            Err(e) => {
                return Err(e);
            },
        };
        let addr = self.add_wallet(&wallet);
        proof {
            let entry = WalletEntryV {
                address: addr@,
                pkcs8: wallet.pkcs8@,
                public_key: wallet.public_key@,
            };
            if !wallet_known(old(self)@, addr@) {
                assert(self@ == old(self)@.push(entry));
                assert(self@.drop_last() =~= old(self)@);
                assert(self@.last() == entry);
            } else {
                let p = choose|p: int|
                    0 <= p < old(self)@.len() && (#[trigger] old(self)@[p]).address == addr@
                        && self@ == old(self)@.update(p, entry);
                assert(self@[p].address == addr@);
                assert(forall|q: int|
                    0 <= q < old(self)@.len() && q != p ==> self@[q] == old(self)@[q]);
            }
        }
        Ok(addr)
    }

    /// The stored addresses, in storage order.
    pub fn get_addresses(&self) -> (r: Vec<String>)
        ensures
            r@.len() == self@.len(),
            forall|i: int| 0 <= i < r@.len() ==> (#[trigger] r@[i])@ == self@[i].address,
    {
        let mut r: Vec<String> = Vec::new();
        let mut i: usize = 0;
        while i < self.wallets.len()
            invariant
                i <= self.wallets@.len(),
                self@.len() == self.wallets@.len(),
                r@.len() == i,
                forall|k: int| 0 <= k < i ==> (#[trigger] r@[k])@ == self@[k].address,
            decreases self.wallets@.len() - i,
        {
            r.push(self.wallets[i].address.clone());
            i = i + 1;
        }
        r
    }

    /// Looks a wallet up by its address.
    pub fn get_wallet(&self, address: &str) -> (r: Option<&Wallet>)
        ensures
            match r {
                Some(w) => exists|i: int|
                    0 <= i < self@.len() && (#[trigger] self@[i]).address == address@
                        && w.pkcs8@ == self@[i].pkcs8 && w.public_key@ == self@[i].public_key,
                None => !wallet_known(self@, address@),
            },
    {
        let mut i: usize = 0;
        while i < self.wallets.len()
            invariant
                i <= self.wallets@.len(),
                self@.len() == self.wallets@.len(),
                forall|k: int| 0 <= k < i ==> (#[trigger] self@[k]).address != address@,
            decreases self.wallets@.len() - i,
        {
            if str_eq(self.wallets[i].address.as_str(), address) {
                proof {
                    assert(self@[i as int].address == address@);
                }
                return Some(&self.wallets[i].wallet);
            }
            i = i + 1;
        }
        None
    }

    /// The number of stored wallets.
    pub fn len(&self) -> (r: usize)
        ensures
            r == self@.len(),
    {
        self.wallets.len()
    }
}

} // verus!
