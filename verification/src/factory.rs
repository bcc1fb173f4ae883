//! The bridge to the account factory.
//!
//! An account is created once, on the first packet of its controller. Its
//! address is fixed beforehand by a salt that is made of the channel and the
//! controller, so that no two pairs share an address. The factory is asked to
//! instantiate the account with that salt; its reply is the one place where
//! an account enters the registry.

use vstd::prelude::*;
use vstd::string::StrSliceExecFns;
use vstd::utf8::encode_utf8;
use crate::error::{AddressError, Error, ErrorView};
use crate::order::lemma_encode_utf8_injective;
use crate::registry::{register_spec, AccountEntry, AccountMap, AccountRegistry};
use crate::table::KeyView;
use crate::text::copy_bytes;

verus! {

/// The address that `cosmwasm_std::instantiate2_address` derives from a code
/// checksum, the canonical address of the creator and a salt.
pub uninterp spec fn instantiate2_address_of(
    checksum: Seq<u8>,
    creator: Seq<u8>,
    salt: Seq<u8>,
) -> Seq<u8>;

/// The contract address that `cw_utils::parse_instantiate_response_data`
/// reads from the data of an instantiate reply, if it can be parsed.
pub uninterp spec fn instantiate_reply_address(data: Seq<u8>) -> Option<Seq<char>>;

/// Why no address can be derived from a checksum and a salt, if so.
pub open spec fn address_fault(checksum: Seq<u8>, salt: Seq<u8>) -> Option<AddressError> {
    if checksum.len() != 32 {
        Some(AddressError::InvalidChecksumLength)
    } else if salt.len() == 0 || salt.len() > 64 {
        Some(AddressError::InvalidSaltLength)
    } else {
        None
    }
}

/// Calls `cosmwasm_std::instantiate2_address`. That function refuses a
/// checksum that is not 32 bytes long, then a salt that is empty or longer
/// than 64 bytes, and otherwise hashes its three arguments into an address.
#[verifier::external_body]
fn derive_address(checksum: &[u8], creator: &[u8], salt: &[u8]) -> (r: Result<
    Vec<u8>,
    AddressError,
>)
    ensures
        match r {
            Ok(a) => address_fault(checksum@, salt@) is None && a@ == instantiate2_address_of(
                checksum@,
                creator@,
                salt@,
            ),
            Err(e) => address_fault(checksum@, salt@) == Some(e),
        },
{
    let creator = cosmwasm_std::CanonicalAddr::from(creator);
    match cosmwasm_std::instantiate2_address(checksum, &creator, salt) {
        Ok(address) => Ok(address.to_vec()),
        Err(cosmwasm_std::Instantiate2AddressError::InvalidChecksumLength) => Err(
            AddressError::InvalidChecksumLength,
        ),
        Err(cosmwasm_std::Instantiate2AddressError::InvalidSaltLength) => Err(
            AddressError::InvalidSaltLength,
        ),
    }
}

/// Calls `cw_utils::parse_instantiate_response_data`, which decodes the
/// protobuf message that the chain puts into the reply of an instantiate
/// message, and keeps the contract address of that message.
#[verifier::external_body]
fn parse_instantiate_address(data: &[u8]) -> (r: Result<String, cw_utils::ParseReplyError>)
    ensures
        match r {
            Ok(a) => instantiate_reply_address(data@) == Some(a@),
            Err(_) => instantiate_reply_address(data@) is None,
        },
{
    match cw_utils::parse_instantiate_response_data(data) {
        Ok(response) => Ok(response.contract_address),
        Err(e) => Err(e),
    }
}

/// Calls `cosmwasm_std::Uint64::checked_add`, which adds two numbers and
/// fails where the sum does not fit into 64 bits.
#[verifier::external_body]
fn checked_add(a: u64, b: u64) -> (r: Result<u64, cosmwasm_std::OverflowError>)
    ensures
        match r {
            Ok(sum) => sum == a + b,
            Err(_) => a + b > u64::MAX,
        },
{
    match cosmwasm_std::Uint64::new(a).checked_add(cosmwasm_std::Uint64::new(b)) {
        Ok(sum) => Ok(sum.u64()),
        Err(e) => Err(e),
    }
}

/// Calls `cosmwasm_std::StdError::not_found`, which makes the error of a
/// store that lacks a record of the given kind.
#[verifier::external_body]
fn not_found(kind: &str) -> cosmwasm_std::StdError {
    cosmwasm_std::StdError::not_found(kind)
}

/// The first byte of a salt: the length of the channel's name, or 255 where
/// it is longer than that.
pub open spec fn salt_head(len: nat) -> u8 {
    if len > 255 {
        255u8
    } else {
        len as u8
    }
}

/// The salt of the account that `controller` has on `channel_id`: the length
/// of the channel's name in one byte, the name, and the controller, all in
/// UTF-8.
pub open spec fn salt_spec(channel_id: Seq<char>, controller: Seq<char>) -> Seq<u8> {
    seq![salt_head(encode_utf8(channel_id).len())] + encode_utf8(channel_id) + encode_utf8(
        controller,
    )
}

/// The salt of the account that `controller` has on `channel_id`.
pub fn account_salt(channel_id: &String, controller: &String) -> (r: Vec<u8>)
    ensures
        r@ == salt_spec(channel_id@, controller@),
{
    let channel = channel_id.as_str().as_bytes_vec();
    let owner = controller.as_str().as_bytes_vec();
    let head: u8 = if channel.len() > 255 {
        255
    } else {
        channel.len() as u8
    };
    let mut salt: Vec<u8> = Vec::new();
    salt.push(head);
    salt.extend_from_slice(channel.as_slice());
    salt.extend_from_slice(owner.as_slice());
    assert(salt@ =~= salt_spec(channel_id@, controller@));
    salt
}

/// No two pairs of channel and controller share a salt that the factory
/// accepts: a salt of 64 bytes at most tells its pair.
pub proof fn lemma_salt_tells_pair(
    channel_a: Seq<char>,
    controller_a: Seq<char>,
    channel_b: Seq<char>,
    controller_b: Seq<char>,
)
    requires
        salt_spec(channel_a, controller_a) == salt_spec(channel_b, controller_b),
        salt_spec(channel_a, controller_a).len() <= 64,
    ensures
        channel_a == channel_b,
        controller_a == controller_b,
{
    let sa = salt_spec(channel_a, controller_a);
    let sb = salt_spec(channel_b, controller_b);
    let ca = encode_utf8(channel_a);
    let cb = encode_utf8(channel_b);
    let oa = encode_utf8(controller_a);
    let ob = encode_utf8(controller_b);
    assert(sa[0] == salt_head(ca.len()));
    assert(sb[0] == salt_head(cb.len()));
    assert(ca.len() == cb.len());
    let n = ca.len() as int;
    assert(ca =~= sa.subrange(1, 1 + n));
    assert(cb =~= sb.subrange(1, 1 + n));
    assert(oa =~= sa.subrange(1 + n, sa.len() as int));
    assert(ob =~= sb.subrange(1 + n, sb.len() as int));
    lemma_encode_utf8_injective(channel_a, channel_b);
    lemma_encode_utf8_injective(controller_a, controller_b);
}

/// A request to the factory that waits for its reply: the number of the
/// sub-message, and the pair whose account it is to create.
#[derive(Clone, Debug, PartialEq, Eq)]
pub struct PendingFactoryRequest {
    pub id: u64,
    pub channel_id: String,
    pub controller: String,
}

impl View for PendingFactoryRequest {
    type V = (u64, KeyView);

    open spec fn view(&self) -> (u64, KeyView) {
        (self.id, (self.channel_id@, self.controller@))
    }
}

/// The pairs of channel and controller whose requests wait, by sub-message
/// number.
pub type PendingMap = Map<u64, KeyView>;

/// How the account of a controller stands.
#[derive(Clone, Debug, PartialEq, Eq)]
#[allow(inconsistent_fields)]
pub enum AccountStatus {
    /// The account exists at this address.
    Existing { address: String },
    /// The account is to be created. The factory is to be sent an
    /// instantiate sub-message numbered `id` with this `salt`, which puts the
    /// account at the canonical address `address`.
    Requested { id: u64, salt: Vec<u8>, address: Vec<u8> },
}

/// No two requests of the sequence have the same number.
pub open spec fn distinct_ids(s: Seq<(u64, KeyView)>) -> bool {
    forall|i: int, j: int| 0 <= i < j < s.len() ==> (#[trigger] s[i]).0 != (#[trigger] s[j]).0
}

/// The requests of a sequence, as pairs by sub-message number.
pub open spec fn pending_map(s: Seq<(u64, KeyView)>) -> PendingMap {
    Map::new(
        |id: u64| exists|i: int| 0 <= i < s.len() && #[trigger] s[i].0 == id,
        |id: u64| s[choose|i: int| 0 <= i < s.len() && #[trigger] s[i].0 == id].1,
    )
}

/// Where no number occurs twice, the map holds every request.
pub proof fn lemma_pending_index(s: Seq<(u64, KeyView)>, i: int)
    requires
        distinct_ids(s),
        0 <= i < s.len(),
    ensures
        pending_map(s).contains_key(s[i].0),
        pending_map(s)[s[i].0] == s[i].1,
{
    let id = s[i].0;
    let j = choose|j: int| 0 <= j < s.len() && #[trigger] s[j].0 == id;
    if j < i {
        assert(s[j].0 != s[i].0);
    } else if i < j {
        assert(s[i].0 != s[j].0);
    }
}

/// A request with a number of its own, put at the end, is added to the map.
pub proof fn lemma_pending_push(s: Seq<(u64, KeyView)>, r: (u64, KeyView))
    requires
        distinct_ids(s),
        !pending_map(s).contains_key(r.0),
    ensures
        distinct_ids(s.push(r)),
        pending_map(s.push(r)) == pending_map(s).insert(r.0, r.1),
{
    let t = s.push(r);
    assert forall|i: int, j: int| 0 <= i < j < t.len() implies (#[trigger] t[i]).0 != (
    #[trigger] t[j]).0 by {
        if j == s.len() {
            assert(s[i].0 == t[i].0);
        } else {
            assert(s[i].0 != s[j].0);
        }
    }
    assert forall|q: u64| #[trigger]
        pending_map(t).contains_key(q) <==> pending_map(s).insert(r.0, r.1).contains_key(q) by {
        if pending_map(t).contains_key(q) {
            let j = choose|j: int| 0 <= j < t.len() && #[trigger] t[j].0 == q;
            if j < s.len() {
                assert(s[j].0 == q);
            }
        }
        if pending_map(s).contains_key(q) {
            let j = choose|j: int| 0 <= j < s.len() && #[trigger] s[j].0 == q;
            assert(t[j].0 == q);
        }
        if q == r.0 {
            assert(t[s.len() as int].0 == q);
        }
    }
    assert forall|q: u64| #[trigger] pending_map(t).contains_key(q) implies pending_map(t)[q]
        == pending_map(s).insert(r.0, r.1)[q] by {
        let j = choose|j: int| 0 <= j < t.len() && #[trigger] t[j].0 == q;
        lemma_pending_index(t, j);
        if j < s.len() {
            lemma_pending_index(s, j);
        }
    }
    assert(pending_map(t) =~= pending_map(s).insert(r.0, r.1));
}

/// Taking a request out of the sequence takes it out of the map.
pub proof fn lemma_pending_remove(s: Seq<(u64, KeyView)>, i: int)
    requires
        distinct_ids(s),
        0 <= i < s.len(),
    ensures
        distinct_ids(s.remove(i)),
        pending_map(s.remove(i)) == pending_map(s).remove(s[i].0),
{
    let t = s.remove(i);
    assert forall|a: int, b: int| 0 <= a < b < t.len() implies (#[trigger] t[a]).0 != (
    #[trigger] t[b]).0 by {
        let a0 = if a < i { a } else { a + 1 };
        let b0 = if b < i { b } else { b + 1 };
        assert(s[a0].0 != s[b0].0);
    }
    assert forall|q: u64| #[trigger]
        pending_map(t).contains_key(q) <==> pending_map(s).remove(s[i].0).contains_key(q) by {
        if pending_map(t).contains_key(q) {
            let j = choose|j: int| 0 <= j < t.len() && #[trigger] t[j].0 == q;
            let j0 = if j < i { j } else { j + 1 };
            assert(s[j0].0 == q);
            if j0 < i {
                assert(s[j0].0 != s[i].0);
            } else {
                assert(s[i].0 != s[j0].0);
            }
        }
        if pending_map(s).contains_key(q) && q != s[i].0 {
            let j = choose|j: int| 0 <= j < s.len() && #[trigger] s[j].0 == q;
            let j1 = if j < i { j } else { j - 1 };
            assert(t[j1].0 == q);
        }
    }
    assert forall|q: u64| #[trigger] pending_map(t).contains_key(q) implies pending_map(t)[q]
        == pending_map(s).remove(s[i].0)[q] by {
        let j = choose|j: int| 0 <= j < t.len() && #[trigger] t[j].0 == q;
        let j0 = if j < i { j } else { j + 1 };
        lemma_pending_index(t, j);
        lemma_pending_index(s, j0);
    }
    assert(pending_map(t) =~= pending_map(s).remove(s[i].0));
}

/// What the factory's reply to request `id` does, once its address is read,
/// to the accounts and to the requests that wait. A reply that names no
/// address carries no instantiate data. Otherwise the account enters the
/// registry and the request is done with, unless the pair has an account.
pub open spec fn complete_spec(
    accounts: AccountMap,
    pending: PendingMap,
    id: u64,
    address: Seq<char>,
) -> Result<(AccountMap, PendingMap), ErrorView> {
    if address.len() == 0 {
        Err(ErrorView::FactoryResponseDataMissing)
    } else {
        match register_spec(accounts, pending[id].0, pending[id].1, address) {
            Ok(registered) => Ok((registered, pending.remove(id))),
            Err(e) => Err(e),
        }
    }
}

/// A pair gets its account from the first reply to one of its requests. A
/// later reply that names an address for the same pair is rejected, and the
/// address of the first stays.
pub proof fn lemma_second_reply_is_rejected(
    accounts: AccountMap,
    pending: PendingMap,
    first: u64,
    second: u64,
    first_address: Seq<char>,
    second_address: Seq<char>,
)
    requires
        pending.contains_key(first),
        pending.contains_key(second),
        first != second,
        pending[first] == pending[second],
        second_address.len() > 0,
        complete_spec(accounts, pending, first, first_address) is Ok,
    ensures
        ({
            let settled = complete_spec(accounts, pending, first, first_address)->Ok_0;
            let pair = pending[first];
            &&& settled.1.contains_key(second)
            &&& settled.0.contains_key(pair)
            &&& settled.0[pair] == first_address
            &&& complete_spec(settled.0, settled.1, second, second_address) == Err::<
                (AccountMap, PendingMap),
                ErrorView,
            >(ErrorView::AccountExists { channel_id: pair.0, controller: pair.1 })
        }),
{
}

/// The bridge to the account factory: what the factory needs to derive an
/// address, and the requests that wait for its reply.
#[derive(Debug)]
pub struct FactoryBridge {
    checksum: Vec<u8>,
    creator: Vec<u8>,
    pending: Vec<PendingFactoryRequest>,
    next_id: u64,
}

impl FactoryBridge {
    /// The numbers of the waiting requests differ, and are all below the
    /// number that the next request gets.
    pub closed spec fn wf(&self) -> bool {
        &&& distinct_ids(self.requests())
        &&& forall|i: int|
            0 <= i < self.requests().len() ==> (#[trigger] self.requests()[i]).0 < self.next_id
    }

    /// The checksum of the code of an account.
    pub closed spec fn checksum(&self) -> Seq<u8> {
        self.checksum@
    }

    /// The canonical address of the creator of the accounts.
    pub closed spec fn creator(&self) -> Seq<u8> {
        self.creator@
    }

    /// The number that the next request gets.
    pub closed spec fn next_id(&self) -> u64 {
        self.next_id
    }

    /// The waiting requests, oldest first.
    pub closed spec fn requests(&self) -> Seq<(u64, KeyView)> {
        self.pending@.map_values(|p: PendingFactoryRequest| p@)
    }

    /// The waiting requests, by sub-message number.
    pub closed spec fn pending(&self) -> PendingMap {
        pending_map(self.requests())
    }

    /// The list of waiting requests holds exactly the requests that wait,
    /// each number once, and each number below that of the next request.
    pub proof fn lemma_requests(&self)
        requires
            self.wf(),
        ensures
            distinct_ids(self.requests()),
            self.pending() == pending_map(self.requests()),
            forall|i: int|
                0 <= i < self.requests().len() ==> (#[trigger] self.requests()[i]).0
                    < self.next_id(),
    {
    }

    /// A bridge on which no request waits, and whose first request gets the
    /// number 1.
    pub fn new(checksum: Vec<u8>, creator: Vec<u8>) -> (r: FactoryBridge)
        ensures
            r.wf(),
            r.checksum() == checksum@,
            r.creator() == creator@,
            r.next_id() == 1,
            r.pending() == PendingMap::empty(),
    {
        FactoryBridge::resume(checksum, creator, 1)
    }

    /// A bridge on which no request waits, and whose next request gets the
    /// number `next_id`.
    pub fn resume(checksum: Vec<u8>, creator: Vec<u8>, next_id: u64) -> (r: FactoryBridge)
        ensures
            r.wf(),
            r.checksum() == checksum@,
            r.creator() == creator@,
            r.next_id() == next_id,
            r.pending() == PendingMap::empty(),
    {
        let r = FactoryBridge { checksum, creator, pending: Vec::new(), next_id };
        assert(r.pending() =~= PendingMap::empty());
        r
    }

    /// The checksum of the code of an account.
    pub fn code_checksum(&self) -> (r: Vec<u8>)
        ensures
            r@ == self.checksum(),
    {
        copy_bytes(&self.checksum)
    }

    /// The canonical address of the creator of the accounts.
    pub fn creator_address(&self) -> (r: Vec<u8>)
        ensures
            r@ == self.creator(),
    {
        copy_bytes(&self.creator)
    }

    /// The number that the next request gets.
    pub fn next_request_id(&self) -> (r: u64)
        ensures
            r == self.next_id(),
    {
        self.next_id
    }

    /// A copy of the waiting requests, oldest first.
    pub fn export(&self) -> (r: Vec<PendingFactoryRequest>)
        ensures
            r@.map_values(|p: PendingFactoryRequest| p@) == self.requests(),
    {
        let mut out: Vec<PendingFactoryRequest> = Vec::new();
        let mut i: usize = 0;
        while i < self.pending.len()
            invariant
                i <= self.pending@.len(),
                out@.len() == i,
                forall|j: int| 0 <= j < i ==> (#[trigger] out@[j])@ == self.pending@[j]@,
            decreases self.pending@.len() - i,
        {
            out.push(
                PendingFactoryRequest {
                    id: self.pending[i].id,
                    channel_id: self.pending[i].channel_id.clone(),
                    controller: self.pending[i].controller.clone(),
                },
            );
            i = i + 1;
        }
        assert(out@.map_values(|p: PendingFactoryRequest| p@) =~= self.requests());
        out
    }

    /// A copy of this bridge.
    pub fn duplicate(&self) -> (r: FactoryBridge)
        requires
            self.wf(),
        ensures
            r.wf(),
            r.checksum() == self.checksum(),
            r.creator() == self.creator(),
            r.next_id() == self.next_id(),
            r.pending() == self.pending(),
    {
        FactoryBridge {
            checksum: copy_bytes(&self.checksum),
            creator: copy_bytes(&self.creator),
            pending: self.export(),
            next_id: self.next_id,
        }
    }

    /// The position of request `id` among the waiting requests.
    fn find(&self, id: u64) -> (r: Option<usize>)
        requires
            self.wf(),
        ensures
            match r {
                Some(i) => i < self.requests().len() && self.requests()[i as int].0 == id
                    && self.pending().contains_key(id) && self.pending()[id]
                    == self.requests()[i as int].1,
                None => !self.pending().contains_key(id),
            },
    {
        let mut i: usize = 0;
        while i < self.pending.len()
            invariant
                self.wf(),
                i <= self.pending@.len(),
                forall|j: int| 0 <= j < i ==> (#[trigger] self.requests()[j]).0 != id,
            decreases self.pending@.len() - i,
        {
            if self.pending[i].id == id {
                proof {
                    lemma_pending_index(self.requests(), i as int);
                }
                return Some(i);
            }
            i = i + 1;
        }
        None
    }

    /// The pair whose account request `id` is to create, if that request
    /// waits.
    pub fn pending_request(&self, id: u64) -> (r: Option<(String, String)>)
        requires
            self.wf(),
        ensures
            match r {
                Some(pair) => self.pending().contains_key(id) && (pair.0@, pair.1@)
                    == self.pending()[id],
                None => !self.pending().contains_key(id),
            },
    {
        match self.find(id) {
            Some(i) => Some(
                (self.pending[i].channel_id.clone(), self.pending[i].controller.clone()),
            ),
            None => None,
        }
    }

    /// Adds a request under a number that no waiting request has.
    fn file(&mut self, id: u64, channel_id: &String, controller: &String)
        requires
            distinct_ids(old(self).requests()),
            !old(self).pending().contains_key(id),
        ensures
            final(self).checksum == old(self).checksum,
            final(self).creator == old(self).creator,
            final(self).next_id == old(self).next_id,
            final(self).requests() == old(self).requests().push((id, (channel_id@, controller@))),
            distinct_ids(final(self).requests()),
            final(self).pending() == old(self).pending().insert(id, (channel_id@, controller@)),
    {
        proof {
            lemma_pending_push(self.requests(), (id, (channel_id@, controller@)));
        }
        let ghost before = self.requests();
        let request = PendingFactoryRequest {
            id,
            channel_id: channel_id.clone(),
            controller: controller.clone(),
        };
        self.pending.push(request);
        assert(self.requests() =~= before.push(request@));
    }

    /// Puts back a request that was exported. Its number must be below the
    /// number that the next request gets, and no waiting request may have
    /// it; where that is not so, nothing changes and the answer is `false`.
    pub fn restore(&mut self, request: PendingFactoryRequest) -> (restored: bool)
        requires
            old(self).wf(),
        ensures
            final(self).wf(),
            final(self).checksum() == old(self).checksum(),
            final(self).creator() == old(self).creator(),
            final(self).next_id() == old(self).next_id(),
            restored == (request.id < old(self).next_id() && !old(self).pending().contains_key(
                request.id,
            )),
            restored ==> final(self).pending() == old(self).pending().insert(
                request.id,
                request@.1,
            ),
            !restored ==> *final(self) == *old(self),
    {
        if request.id >= self.next_id || self.find(request.id).is_some() {
            return false;
        }
        self.file(request.id, &request.channel_id, &request.controller);
        true
    }

    /// Files the request for the account of `controller` on `channel_id`,
    /// given the salt and what deriving the address from it gave.
    pub fn request(
        &mut self,
        channel_id: &String,
        controller: &String,
        salt: Vec<u8>,
        derived: Result<Vec<u8>, AddressError>,
    ) -> (r: Result<AccountStatus, Error>)
        requires
            old(self).wf(),
        ensures
            final(self).wf(),
            final(self).checksum() == old(self).checksum(),
            final(self).creator() == old(self).creator(),
            match r {
                Ok(status) => {
                    &&& status matches AccountStatus::Requested { id, salt: s, address }
                    &&& derived matches Ok(a)
                    &&& address@ == a@
                    &&& s@ == salt@
                    &&& id == old(self).next_id()
                    &&& final(self).next_id() == id + 1
                    &&& final(self).pending() == old(self).pending().insert(
                        id,
                        (channel_id@, controller@),
                    )
                },
                Err(e) => {
                    &&& *final(self) == *old(self)
                    &&& match derived {
                        Err(fault) => e@ == ErrorView::Instantiate2Address(fault),
                        Ok(_) => e@ is Overflow && old(self).next_id() == u64::MAX,
                    }
                },
            },
    {
        let address = match derived {
            Ok(address) => address,
            Err(fault) => {
                return Err(Error::Instantiate2Address(fault));
            },
        };
        let id = self.next_id;
        let next = match checked_add(id, 1) {
            Ok(next) => next,
            Err(e) => {
                return Err(Error::Overflow(e));
            },
        };
        self.file(id, channel_id, controller);
        self.next_id = next;
        Ok(AccountStatus::Requested { id, salt, address })
    }

    /// Makes sure that `controller` has an account on `channel_id`: gives
    /// the address of the account that the registry holds, or files the
    /// request to create it.
    pub fn ensure_account(
        &mut self,
        registry: &AccountRegistry,
        channel_id: &String,
        controller: &String,
    ) -> (r: Result<AccountStatus, Error>)
        requires
            old(self).wf(),
            registry.wf(),
        ensures
            final(self).wf(),
            final(self).checksum() == old(self).checksum(),
            final(self).creator() == old(self).creator(),
            match r {
                Ok(AccountStatus::Existing { address }) => {
                    &&& registry@.contains_key((channel_id@, controller@))
                    &&& address@ == registry@[(channel_id@, controller@)]
                    &&& *final(self) == *old(self)
                },
                Ok(AccountStatus::Requested { id, salt, address }) => {
                    &&& !registry@.contains_key((channel_id@, controller@))
                    &&& salt@ == salt_spec(channel_id@, controller@)
                    &&& address_fault(old(self).checksum(), salt@) is None
                    &&& address@ == instantiate2_address_of(
                        old(self).checksum(),
                        old(self).creator(),
                        salt@,
                    )
                    &&& id == old(self).next_id()
                    &&& final(self).next_id() == id + 1
                    &&& final(self).pending() == old(self).pending().insert(
                        id,
                        (channel_id@, controller@),
                    )
                },
                Err(e) => {
                    &&& !registry@.contains_key((channel_id@, controller@))
                    &&& *final(self) == *old(self)
                    &&& match address_fault(
                        old(self).checksum(),
                        salt_spec(channel_id@, controller@),
                    ) {
                        Some(fault) => e@ == ErrorView::Instantiate2Address(fault),
                        None => e@ is Overflow && old(self).next_id() == u64::MAX,
                    }
                },
            },
    {
        match registry.lookup_by_controller(channel_id, controller) {
            Some(address) => {
                return Ok(AccountStatus::Existing { address });
            },
            None => {},
        }
        let salt = account_salt(channel_id, controller);
        let derived = derive_address(
            self.checksum.as_slice(),
            self.creator.as_slice(),
            salt.as_slice(),
        );
        self.request(channel_id, controller, salt, derived)
    }

    /// Settles request `id`, given what reading the factory's reply gave:
    /// the account enters the registry and the request is done with. A
    /// reply that names no address is refused as one without instantiate
    /// data. On an error nothing changes.
    pub fn complete(
        &mut self,
        registry: &mut AccountRegistry,
        id: u64,
        parsed: Result<String, cw_utils::ParseReplyError>,
    ) -> (r: Result<AccountEntry, Error>)
        requires
            old(self).wf(),
            old(registry).wf(),
        ensures
            final(self).wf(),
            final(registry).wf(),
            final(self).checksum() == old(self).checksum(),
            final(self).creator() == old(self).creator(),
            final(self).next_id() == old(self).next_id(),
            match r {
                Ok(entry) => {
                    &&& old(self).pending().contains_key(id)
                    &&& parsed matches Ok(address)
                    &&& entry@ == (old(self).pending()[id], address@)
                    &&& complete_spec(old(registry)@, old(self).pending(), id, address@) == Ok::<
                        (AccountMap, PendingMap),
                        ErrorView,
                    >((final(registry)@, final(self).pending()))
                },
                Err(e) => {
                    &&& *final(self) == *old(self)
                    &&& *final(registry) == *old(registry)
                    &&& if !old(self).pending().contains_key(id) {
                        e@ is Std
                    } else {
                        match parsed {
                            Err(fault) => e@ == ErrorView::ParseReply(fault),
                            Ok(address) => complete_spec(
                                old(registry)@,
                                old(self).pending(),
                                id,
                                address@,
                            ) == Err::<(AccountMap, PendingMap), ErrorView>(e@),
                        }
                    }
                },
            },
    {
        let i = match self.find(id) {
            Some(i) => i,
            None => {
                return Err(Error::Std(not_found("PendingFactoryRequest")));
            },
        };
        let address = match parsed {
            Ok(address) => address,
            Err(fault) => {
                return Err(Error::ParseReply(fault));
            },
        };
        if address.as_str().is_empty() {
            return Err(Error::FactoryResponseDataMissing);
        }
        let entry = AccountEntry {
            channel_id: self.pending[i].channel_id.clone(),
            controller: self.pending[i].controller.clone(),
            address: address.clone(),
        };
        match registry.register(&entry.channel_id, &entry.controller, address) {
            Ok(_) => {},
            Err(e) => {
                return Err(e);
            },
        }
        proof {
            lemma_pending_remove(self.requests(), i as int);
        }
        let ghost before = self.requests();
        self.pending.remove(i);
        assert(self.requests() =~= before.remove(i as int));
        Ok(entry)
    }

    /// The reply of the factory to request `id`: reads the address of the
    /// new account from the reply's data and registers the account. A reply
    /// without data, or with data that names no address, carries no
    /// instantiate data. On an error nothing changes.
    pub fn on_factory_reply(
        &mut self,
        registry: &mut AccountRegistry,
        id: u64,
        data: Option<&Vec<u8>>,
    ) -> (r: Result<AccountEntry, Error>)
        requires
            old(self).wf(),
            old(registry).wf(),
        ensures
            final(self).wf(),
            final(registry).wf(),
            final(self).checksum() == old(self).checksum(),
            final(self).creator() == old(self).creator(),
            final(self).next_id() == old(self).next_id(),
            match r {
                Ok(entry) => {
                    &&& old(self).pending().contains_key(id)
                    &&& data matches Some(d)
                    &&& instantiate_reply_address(d@) matches Some(address)
                    &&& entry@ == (old(self).pending()[id], address)
                    &&& complete_spec(old(registry)@, old(self).pending(), id, address) == Ok::<
                        (AccountMap, PendingMap),
                        ErrorView,
                    >((final(registry)@, final(self).pending()))
                },
                Err(e) => {
                    &&& *final(self) == *old(self)
                    &&& *final(registry) == *old(registry)
                    &&& if !old(self).pending().contains_key(id) {
                        e@ is Std
                    } else {
                        match data {
                            None => e@ == ErrorView::FactoryResponseDataMissing,
                            Some(d) => match instantiate_reply_address(d@) {
                                None => e@ is ParseReply,
                                Some(address) => complete_spec(
                                    old(registry)@,
                                    old(self).pending(),
                                    id,
                                    address,
                                ) == Err::<
                                    (AccountMap, PendingMap),
                                    ErrorView,
                                >(e@),
                            },
                        }
                    }
                },
            },
    {
        if self.find(id).is_none() {
            return Err(Error::Std(not_found("PendingFactoryRequest")));
        }
        let data = match data {
            Some(data) => data,
            None => {
                return Err(Error::FactoryResponseDataMissing);
            },
        };
        let parsed = parse_instantiate_address(data.as_slice());
        self.complete(registry, id, parsed)
    }
}

} // verus!
