//! The registry of interchain accounts.
//!
//! An account belongs to a controller, an address on the other chain, and
//! to the channel over which that controller speaks. A pair of channel and
//! controller has one account at most, and an account once registered is
//! never replaced.

use vstd::prelude::*;
use crate::error::{Error, ErrorView};
use crate::order::{key_lt, lemma_key_lt_irreflexive};
use crate::table::{after, lemma_map_of_index, page, Key, KeyView, Table};

verus! {

/// The mathematical value of an account entry: its key, which is the pair of
/// channel and controller, and the account's address.
pub type AccountEntryView = (KeyView, Seq<char>);

/// The addresses of the accounts by channel and controller.
pub type AccountMap = Map<KeyView, Seq<char>>;

/// One account: who controls it, over which channel, and where it lives.
#[derive(Clone, Debug, PartialEq, Eq)]
pub struct AccountEntry {
    pub channel_id: String,
    pub controller: String,
    pub address: String,
}

impl View for AccountEntry {
    type V = AccountEntryView;

    open spec fn view(&self) -> AccountEntryView {
        ((self.channel_id@, self.controller@), self.address@)
    }
}

/// The value of an optional pair of channel and controller.
pub open spec fn opt_key_view(k: Option<(&String, &String)>) -> Option<KeyView> {
    match k {
        Some(k) => Some((k.0@, k.1@)),
        None => None,
    }
}

/// What registering an account does to the registry: a pair that has an
/// account keeps it, and the attempt fails.
pub open spec fn register_spec(
    accounts: AccountMap,
    channel_id: Seq<char>,
    controller: Seq<char>,
    address: Seq<char>,
) -> Result<AccountMap, ErrorView> {
    if accounts.contains_key((channel_id, controller)) {
        Err(ErrorView::AccountExists { channel_id, controller })
    } else {
        Ok(accounts.insert((channel_id, controller), address))
    }
}

/// The accounts by channel and controller.
#[derive(Debug)]
pub struct AccountRegistry {
    accounts: Table<String>,
}

impl AccountRegistry {
    /// The registry is sound: no pair has two entries.
    pub closed spec fn wf(&self) -> bool {
        self.accounts.wf()
    }

    /// The address of the account of each pair of channel and controller.
    pub closed spec fn view(&self) -> AccountMap {
        self.accounts@
    }

    /// The entries in key order: by channel, then by controller.
    pub closed spec fn entries(&self) -> Seq<AccountEntryView> {
        self.accounts.entries()
    }

    /// A registry without accounts.
    pub fn new() -> (r: AccountRegistry)
        ensures
            r.wf(),
            r@ == AccountMap::empty(),
            r.entries() == Seq::<AccountEntryView>::empty(),
    {
        AccountRegistry { accounts: Table::new() }
    }

    /// The number of accounts.
    pub fn len(&self) -> (n: usize)
        requires
            self.wf(),
        ensures
            n == self.entries().len(),
    {
        self.accounts.len()
    }

    /// The address of the account that `controller` has on `channel_id`,
    /// if it has one.
    pub fn lookup_by_controller(&self, channel_id: &String, controller: &String) -> (r: Option<
        String,
    >)
        requires
            self.wf(),
        ensures
            match r {
                Some(a) => self@.contains_key((channel_id@, controller@)) && a@ == self@[(
                    channel_id@,
                    controller@,
                )],
                None => !self@.contains_key((channel_id@, controller@)),
            },
    {
        let key = Key::pair(channel_id, controller);
        match self.accounts.get(&key) {
            Some(a) => Some(a.clone()),
            None => None,
        }
    }

    /// Registers the account of `controller` on `channel_id`. Fails, and
    /// keeps the account that is there, when the pair has one already.
    pub fn register(&mut self, channel_id: &String, controller: &String, address: String) -> (r:
        Result<(), Error>)
        requires
            old(self).wf(),
        ensures
            final(self).wf(),
            match r {
                Ok(_) => register_spec(old(self)@, channel_id@, controller@, address@) == Ok::<
                    AccountMap,
                    ErrorView,
                >(final(self)@),
                Err(e) => register_spec(old(self)@, channel_id@, controller@, address@) == Err::<
                    AccountMap,
                    ErrorView,
                >(e@) && *final(self) == *old(self),
            },
    {
        let key = Key::pair(channel_id, controller);
        if self.accounts.get(&key).is_some() {
            return Err(
                Error::AccountExists {
                    channel_id: channel_id.clone(),
                    controller: controller.clone(),
                },
            );
        }
        let added = self.accounts.insert(key, address);
        assert(added);
        Ok(())
    }

    /// One page of the entries in key order: those whose key comes strictly
    /// after `start_after`, `limit` of them at most.
    pub fn list(&self, start_after: Option<(&String, &String)>, limit: usize) -> (r: Vec<
        AccountEntry,
    >)
        requires
            self.wf(),
        ensures
            r@.map_values(|e: AccountEntry| e@) == page(
                after(self.entries(), opt_key_view(start_after)),
                limit as nat,
            ),
    {
        let (lo, hi) = match start_after {
            Some(k) => {
                let key = Key::pair(k.0, k.1);
                self.accounts.range_after(Some(&key), limit)
            },
            None => self.accounts.range_after(None, limit),
        };
        let mut out: Vec<AccountEntry> = Vec::new();
        let mut i: usize = lo;
        while i < hi
            invariant
                self.wf(),
                lo <= i <= hi <= self.accounts.entries().len(),
                out@.map_values(|e: AccountEntry| e@) == self.entries().subrange(
                    lo as int,
                    i as int,
                ),
            decreases hi - i,
        {
            let ghost before = out@;
            let key = self.accounts.key_at(i);
            let item = AccountEntry {
                channel_id: key.head.clone(),
                controller: key.tail.clone(),
                address: self.accounts.value_at(i).clone(),
            };
            out.push(item);
            i = i + 1;
            assert(out@.map_values(|e: AccountEntry| e@) =~= before.map_values(
                |e: AccountEntry| e@,
            ).push(item@));
            assert(out@.map_values(|e: AccountEntry| e@) =~= self.entries().subrange(
                lo as int,
                i as int,
            ));
        }
        out
    }

    /// A pair of channel and controller has one entry at most: the entries
    /// are strictly increasing in key order, and they are exactly the
    /// accounts of the registry.
    pub proof fn lemma_one_account_per_controller(&self)
        requires
            self.wf(),
        ensures
            forall|i: int, j: int|
                0 <= i < j < self.entries().len() ==> key_lt(
                    (#[trigger] self.entries()[i]).0,
                    (#[trigger] self.entries()[j]).0,
                ),
            forall|i: int, j: int|
                0 <= i < self.entries().len() && 0 <= j < self.entries().len()
                    && (#[trigger] self.entries()[i]).0 == (#[trigger] self.entries()[j]).0 ==> i
                    == j,
            forall|i: int|
                0 <= i < self.entries().len() ==> {
                    let e = #[trigger] self.entries()[i];
                    self@.contains_key(e.0) && self@[e.0] == e.1
                },
            forall|k: KeyView| #[trigger]
                self@.contains_key(k) ==> self.entries().contains((k, self@[k])),
    {
        let s = self.entries();
        self.accounts.lemma_sorted();
        assert forall|i: int| 0 <= i < s.len() implies {
            let e = #[trigger] s[i];
            self@.contains_key(e.0) && self@[e.0] == e.1
        } by {
            lemma_map_of_index(s, i);
        }
        assert forall|i: int, j: int|
            0 <= i < s.len() && 0 <= j < s.len() && (#[trigger] s[i]).0 == (#[trigger] s[j]).0
            implies i == j by {
            lemma_key_lt_irreflexive(s[i].0);
            if i < j {
                assert(key_lt(s[i].0, s[j].0));
            } else if j < i {
                assert(key_lt(s[j].0, s[i].0));
            }
        }
        assert forall|k: KeyView| #[trigger] self@.contains_key(k) implies s.contains(
            (k, self@[k]),
        ) by {
            let j = choose|j: int| 0 <= j < s.len() && #[trigger] s[j].0 == k;
            lemma_map_of_index(s, j);
            assert(s[j] == (k, self@[k]));
        }
    }
}

} // verus!
