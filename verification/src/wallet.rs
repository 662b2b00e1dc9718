//! The keys of a wallet and the rules for the operations that it creates.
//!
//! Deriving an address from a key, signing, and reading or writing the
//! wallet file are the caller's part. The wallet keeps the list of keys, and
//! decides which key belongs to an address and when a new operation expires.

use crate::fixed::array_eq;
use crate::keyed::KeyEq;
use crate::sequence::views;
use crate::units::{Address, Slot};
use vstd::prelude::*;

verus! {

/// Number of bytes of a private key.
pub const PRIVATE_KEY_SIZE_BYTES: usize = 32;

/// A private key, as the bytes that stand for it.
#[derive(Clone, Copy, Debug, PartialEq, Eq, Hash)]
pub struct PrivateKey {
    /// The bytes of the key.
    pub bytes: [u8; 32],
}

impl View for PrivateKey {
    type V = Seq<u8>;

    open spec fn view(&self) -> Seq<u8> {
        self.bytes@
    }
}

/// The private keys of a wallet, and the path of the file that holds them.
#[derive(Debug)]
pub struct Wallet {
    keys: Vec<PrivateKey>,
    wallet_path: String,
}

/// The place of the first key whose address is `address`, among the keys
/// that have an address in `addresses`; nothing if there is none.
pub open spec fn spec_find_address(
    addresses: Seq<Option<Address>>,
    count: nat,
    address: Seq<u8>,
) -> Option<int>
    decreases count,
{
    if count == 0 {
        None
    } else {
        match spec_find_address(addresses, (count - 1) as nat, address) {
            Some(i) => Some(i),
            None => if count <= addresses.len() && addresses[count - 1] is Some && addresses[count
                - 1]->Some_0@ == address {
                Some(count - 1)
            } else {
                None
            },
        }
    }
}

/// The period in which an operation expires that is created while `slot`
/// is the latest slot, for a sender in `address_thread`: the period of the
/// slot plus the periods that an operation stays valid, and one more if the
/// thread of the slot is not before the thread of the sender. Without a
/// latest slot the first slot counts.
pub open spec fn spec_expire_period(
    slot: Option<Slot>,
    address_thread: u8,
    operation_validity_periods: u64,
) -> int {
    let latest = match slot {
        Some(slot) => slot,
        None => Slot { period: 0, thread: 0 },
    };
    latest.period + operation_validity_periods + if latest.thread >= address_thread {
        1int
    } else {
        0int
    }
}

/// Whether no address stands twice in `addresses`.
pub open spec fn distinct_addresses(addresses: Seq<Seq<u8>>) -> bool {
    forall|i: int, j: int|
        0 <= i < j < addresses.len() ==> #[trigger] addresses[i] != #[trigger] addresses[j]
}

/// The addresses of `addresses`, each once, in the order in which they first
/// come.
pub open spec fn first_occurrences(addresses: Seq<Seq<u8>>) -> Seq<Seq<u8>>
    decreases addresses.len(),
{
    if addresses.len() == 0 {
        Seq::empty()
    } else {
        let front = first_occurrences(addresses.drop_last());
        if front.contains(addresses.last()) {
            front
        } else {
            front.push(addresses.last())
        }
    }
}

/// Whether `address` is among `list`.
pub fn contains_address(list: &Vec<Address>, address: &Address) -> (r: bool)
    ensures
        r == views(list@).contains(address@),
{
    let ghost all = views(list@);
    let mut j: usize = 0;
    while j < list.len()
        invariant
            j <= list.len(),
            all == views(list@),
            forall|k: int| 0 <= k < j ==> #[trigger] all[k] != address@,
        decreases list.len() - j,
    {
        if list[j].key_eq(address) {
            proof {
                assert(all[j as int] == address@);
            }
            return true;
        }
        j = j + 1;
    }
    false
}

impl Wallet {
    /// The keys, in order.
    pub closed spec fn spec_keys(&self) -> Seq<PrivateKey> {
        self.keys@
    }

    /// The path of the file that holds the keys.
    pub closed spec fn spec_wallet_path(&self) -> Seq<char> {
        self.wallet_path@
    }

    /// The wallet of `keys`, kept in the file at `wallet_path`.
    pub fn new(keys: Vec<PrivateKey>, wallet_path: String) -> (r: Wallet)
        ensures
            r.spec_keys() == keys@,
            r.spec_wallet_path() == wallet_path@,
    {
        Wallet { keys, wallet_path }
    }

    /// The keys, in order.
    pub fn keys(&self) -> (r: &Vec<PrivateKey>)
        ensures
            r@ == self.spec_keys(),
    {
        &self.keys
    }

    /// The path of the file that holds the keys.
    pub fn wallet_path(&self) -> (r: &String)
        ensures
            r@ == self.spec_wallet_path(),
    {
        &self.wallet_path
    }

    /// Adds `key` at the end of the keys, if it is not among them. Says
    /// whether it was added.
    pub fn add_private_key(&mut self, key: PrivateKey) -> (added: bool)
        ensures
            added == !views(old(self).spec_keys()).contains(key@),
            final(self).spec_keys() == if added {
                old(self).spec_keys().push(key)
            } else {
                old(self).spec_keys()
            },
            final(self).spec_wallet_path() == old(self).spec_wallet_path(),
    {
        let ghost all = views(self.keys@);
        let mut i: usize = 0;
        while i < self.keys.len()
            invariant
                i <= self.keys.len(),
                self.keys@ == old(self).keys@,
                self.wallet_path@ == old(self).wallet_path@,
                all == views(self.keys@),
                forall|j: int| 0 <= j < i ==> #[trigger] all[j] != key@,
            decreases self.keys.len() - i,
        {
            if array_eq(&self.keys[i].bytes, &key.bytes) {
                proof {
                    assert(all[i as int] == key@);
                }
                return false;
            }
            i = i + 1;
        }
        self.keys.push(key);
        true
    }

    /// The first key whose address is `address`. `addresses` holds the
    /// address of each key, in the order of the keys, or nothing where a key
    /// has no address; a key beyond its end counts as one without address.
    pub fn find_associated_private_key(
        &self,
        addresses: &Vec<Option<Address>>,
        address: Address,
    ) -> (r: Option<&PrivateKey>)
        ensures
            match r {
                Some(key) => spec_find_address(
                    addresses@,
                    self.spec_keys().len(),
                    address@,
                ) is Some && 0 <= spec_find_address(
                    addresses@,
                    self.spec_keys().len(),
                    address@,
                )->Some_0 < self.spec_keys().len() && *key == self.spec_keys()[spec_find_address(
                    addresses@,
                    self.spec_keys().len(),
                    address@,
                )->Some_0],
                None => spec_find_address(addresses@, self.spec_keys().len(), address@) is None,
            },
    {
        let mut i: usize = 0;
        while i < self.keys.len()
            invariant
                i <= self.keys.len(),
                spec_find_address(addresses@, i as nat, address@) is None,
            decreases self.keys.len() - i,
        {
            if i < addresses.len() {
                match &addresses[i] {
                    Some(found) => {
                        if found.key_eq(&address) {
                            proof {
                                lemma_find_address_stays(
                                    addresses@,
                                    (i + 1) as nat,
                                    self.keys@.len(),
                                    address@,
                                );
                            }
                            return Some(&self.keys[i]);
                        }
                    },
                    None => {},
                }
            }
            i = i + 1;
        }
        None
    }

    /// The addresses of the wallet, each once, in the order in which they
    /// first come in `addresses`.
    pub fn get_wallet_address_list(addresses: &Vec<Address>) -> (r: Vec<Address>)
        ensures
            views(r@) == first_occurrences(views(addresses@)),
    {
        let ghost all = views(addresses@);
        let mut list: Vec<Address> = Vec::new();
        let mut i: usize = 0;
        while i < addresses.len()
            invariant
                i <= addresses.len(),
                all == views(addresses@),
                views(list@) == first_occurrences(all.take(i as int)),
            decreases addresses.len() - i,
        {
            let address = addresses[i];
            proof {
                assert(all.take(i + 1).drop_last() =~= all.take(i as int));
            }
            if !contains_address(&list, &address) {
                list.push(address);
            }
            i = i + 1;
        }
        proof {
            assert(all.take(i as int) =~= all);
        }
        list
    }

    /// The period in which an operation expires that is created now, or
    /// nothing if that period is above the largest 64-bit number. See
    /// [`spec_expire_period`].
    pub fn expire_period(
        slot: Option<Slot>,
        address_thread: u8,
        operation_validity_periods: u64,
    ) -> (r: Option<u64>)
        ensures
            match r {
                Some(period) => period == spec_expire_period(
                    slot,
                    address_thread,
                    operation_validity_periods,
                ),
                None => spec_expire_period(slot, address_thread, operation_validity_periods)
                    > u64::MAX,
            },
    {
        let latest = match slot {
            Some(slot) => slot,
            None => Slot::new(0, 0),
        };
        let period = match latest.period.checked_add(operation_validity_periods) {
            Some(period) => period,
            None => {
                return None;
            },
        };
        if latest.thread >= address_thread {
            period.checked_add(1)
        } else {
            Some(period)
        }
    }
}

/// What a sequence holds after a push is what it held and what was pushed.
pub proof fn lemma_push_contains<T>(s: Seq<T>, x: T, a: T)
    ensures
        s.push(x).contains(a) <==> (s.contains(a) || a == x),
{
    if s.contains(a) {
        let k = choose|k: int| 0 <= k < s.len() && s[k] == a;
        assert(s.push(x)[k] == a);
    }
    if a == x {
        assert(s.push(x)[s.len() as int] == a);
    }
}

/// The list of first occurrences holds no address twice, and holds exactly
/// the addresses that it was made from.
pub proof fn lemma_first_occurrences(addresses: Seq<Seq<u8>>)
    ensures
        distinct_addresses(first_occurrences(addresses)),
        forall|a: Seq<u8>| #[trigger]
            first_occurrences(addresses).contains(a) <==> addresses.contains(a),
    decreases addresses.len(),
{
    if addresses.len() > 0 {
        let front = addresses.drop_last();
        let last = addresses.last();
        let list = first_occurrences(front);
        lemma_first_occurrences(front);
        assert(addresses =~= front.push(last));
        assert forall|a: Seq<u8>| #[trigger]
            first_occurrences(addresses).contains(a) <==> addresses.contains(a) by {
            lemma_push_contains(list, last, a);
        }
    }
}

/// A key that was found among the first keys is found among all.
pub proof fn lemma_find_address_stays(
    addresses: Seq<Option<Address>>,
    count: nat,
    more: nat,
    address: Seq<u8>,
)
    requires
        count <= more,
        spec_find_address(addresses, count, address) is Some,
    ensures
        spec_find_address(addresses, more, address) == spec_find_address(
            addresses,
            count,
            address,
        ),
    decreases more - count,
{
    if count < more {
        lemma_find_address_stays(addresses, count, (more - 1) as nat, address);
    }
}

} // verus!
