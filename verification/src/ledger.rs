//! The ledger of denom traces.
//!
//! A token that crosses a channel away from its origin arrives as a voucher:
//! a token of this contract's own making, whose denomination says over which
//! channel it came and what it stands for. The ledger keeps the trace of
//! every voucher denomination ever minted. A trace is never changed and never
//! removed, so a voucher can always be turned back into what it stands for.

use vstd::prelude::*;
use vstd::string::StringExecFns;
use crate::coin::{Coin, CoinView};
use crate::error::{Error, ErrorView};
use crate::order::{key_lt, lemma_str_lt_irreflexive, str_lt};
use crate::table::{lemma_map_of_index, sorted, Key, KeyView, Table};
use crate::text::{join3, starts_with};

verus! {

/// The denomination of the voucher for `denom` come over `channel_id`.
pub open spec fn voucher_denom_spec(channel_id: Seq<char>, denom: Seq<char>) -> Seq<char> {
    "ics999"@ + "/"@ + channel_id + "/"@ + denom
}

/// The beginning of every voucher denomination.
pub open spec fn voucher_prefix() -> Seq<char> {
    "ics999"@ + "/"@
}

/// The beginning of the denomination of every voucher of `channel_id`.
pub open spec fn channel_prefix(channel_id: Seq<char>) -> Seq<char> {
    "ics999"@ + "/"@ + channel_id + "/"@
}

/// The denomination is that of a voucher, of whatever channel or chain.
pub open spec fn is_voucher(denom: Seq<char>) -> bool {
    voucher_prefix().is_prefix_of(denom)
}

/// The denomination is that of a voucher of `channel_id`.
pub open spec fn is_voucher_of(channel_id: Seq<char>, denom: Seq<char>) -> bool {
    channel_prefix(channel_id).is_prefix_of(denom)
}

/// Where a voucher comes from.
#[derive(Clone, Debug, PartialEq, Eq)]
pub struct DenomTrace {
    pub voucher_denom: String,
    pub origin_channel_id: String,
    pub origin_denom: String,
    /// Whether the token is at home on the chain that sent it: false where
    /// that chain held it as a voucher itself.
    pub origin_chain_is_source: bool,
}

/// The mathematical value of a [`DenomTrace`].
pub struct DenomTraceView {
    pub voucher_denom: Seq<char>,
    pub origin_channel_id: Seq<char>,
    pub origin_denom: Seq<char>,
    pub origin_chain_is_source: bool,
}

impl View for DenomTrace {
    type V = DenomTraceView;

    open spec fn view(&self) -> DenomTraceView {
        DenomTraceView {
            voucher_denom: self.voucher_denom@,
            origin_channel_id: self.origin_channel_id@,
            origin_denom: self.origin_denom@,
            origin_chain_is_source: self.origin_chain_is_source,
        }
    }
}

/// The traces by voucher denomination.
pub type TraceMap = Map<Seq<char>, DenomTraceView>;

/// The trace of the voucher for `denom` come over `channel_id`.
pub open spec fn trace_of(channel_id: Seq<char>, denom: Seq<char>) -> DenomTraceView {
    DenomTraceView {
        voucher_denom: voucher_denom_spec(channel_id, denom),
        origin_channel_id: channel_id,
        origin_denom: denom,
        origin_chain_is_source: !is_voucher(denom),
    }
}

impl DenomTrace {
    /// A copy of this trace.
    pub fn duplicate(&self) -> (r: DenomTrace)
        ensures
            r@ == self@,
    {
        DenomTrace {
            voucher_denom: self.voucher_denom.clone(),
            origin_channel_id: self.origin_channel_id.clone(),
            origin_denom: self.origin_denom.clone(),
            origin_chain_is_source: self.origin_chain_is_source,
        }
    }
}

/// The denomination of the voucher for `denom` come over `channel_id`.
pub fn voucher_denom(channel_id: &String, denom: &String) -> (r: String)
    ensures
        r@ == voucher_denom_spec(channel_id@, denom@),
{
    join3("ics999", channel_id.as_str(), denom.as_str(), "/")
}

/// Whether `denom` is that of a voucher, of whatever channel or chain.
pub fn denom_is_voucher(denom: &String) -> (r: bool)
    ensures
        r == is_voucher(denom@),
{
    let mut prefix = "ics999".to_owned();
    prefix.append("/");
    starts_with(denom.as_str(), prefix.as_str())
}

/// Whether `denom` is that of a voucher of `channel_id`.
pub fn denom_is_voucher_of(channel_id: &String, denom: &String) -> (r: bool)
    ensures
        r == is_voucher_of(channel_id@, denom@),
{
    let mut prefix = "ics999".to_owned();
    prefix.append("/");
    prefix.append(channel_id.as_str());
    prefix.append("/");
    starts_with(denom.as_str(), prefix.as_str())
}

/// What minting a voucher does to the ledger, and the voucher coin that it
/// gives. A denomination minted before keeps its trace; one whose trace
/// names another origin is refused.
pub open spec fn mint_spec(
    ledger: TraceMap,
    channel_id: Seq<char>,
    coin: CoinView,
) -> Result<(TraceMap, CoinView), ErrorView> {
    let voucher = voucher_denom_spec(channel_id, coin.0);
    if !ledger.contains_key(voucher) {
        Ok((ledger.insert(voucher, trace_of(channel_id, coin.0)), (voucher, coin.1)))
    } else if ledger[voucher] == trace_of(channel_id, coin.0) {
        Ok((ledger, (voucher, coin.1)))
    } else {
        Err(ErrorView::TraceNotFound { denom: voucher })
    }
}

/// The coin that a voucher coin stands for, by the ledger.
pub open spec fn unwrap_spec(ledger: TraceMap, voucher: CoinView) -> Result<
    CoinView,
    ErrorView,
> {
    if ledger.contains_key(voucher.0) {
        Ok((ledger[voucher.0].origin_denom, voucher.1))
    } else {
        Err(ErrorView::TraceNotFound { denom: voucher.0 })
    }
}

/// The traces of all vouchers ever minted, by voucher denomination.
#[derive(Debug)]
pub struct DenomTraceLedger {
    traces: Table<DenomTrace>,
}

impl DenomTraceLedger {
    /// The ledger is sound: a trace is filed under its voucher denomination,
    /// which is the one that its origin gives.
    pub closed spec fn wf(&self) -> bool {
        &&& self.traces.wf()
        &&& forall|k: KeyView| #[trigger]
            self.traces@.contains_key(k) ==> k.1 == Seq::<char>::empty()
                && self.traces@[k].voucher_denom == k.0 && self.traces@[k] == trace_of(
                self.traces@[k].origin_channel_id,
                self.traces@[k].origin_denom,
            )
    }

    /// The traces by voucher denomination.
    pub closed spec fn view(&self) -> TraceMap {
        Map::new(
            |d: Seq<char>| self.traces@.contains_key((d, Seq::<char>::empty())),
            |d: Seq<char>| self.traces@[(d, Seq::<char>::empty())],
        )
    }

    /// A ledger without traces.
    pub fn new() -> (r: DenomTraceLedger)
        ensures
            r.wf(),
            r@ == TraceMap::empty(),
            r.traces() == Seq::<DenomTraceView>::empty(),
    {
        let r = DenomTraceLedger { traces: Table::new() };
        assert(r@ =~= TraceMap::empty());
        assert(r.traces() =~= Seq::<DenomTraceView>::empty());
        r
    }

    /// Every trace is filed under its own voucher denomination, and is the
    /// trace that minting from its origin writes.
    pub proof fn lemma_filed_by_voucher(&self)
        requires
            self.wf(),
        ensures
            forall|d: Seq<char>| #[trigger]
                self@.contains_key(d) ==> self@[d].voucher_denom == d && self@[d] == trace_of(
                    self@[d].origin_channel_id,
                    self@[d].origin_denom,
                ),
    {
    }

    /// All traces, in the order of their voucher denominations.
    pub closed spec fn traces(&self) -> Seq<DenomTraceView> {
        self.traces.entries().map_values(|e: (KeyView, DenomTraceView)| e.1)
    }

    /// The list of traces holds exactly the traces of the ledger, each once,
    /// in the increasing order of their voucher denominations.
    pub proof fn lemma_traces(&self)
        requires
            self.wf(),
        ensures
            forall|i: int|
                0 <= i < self.traces().len() ==> {
                    let t = #[trigger] self.traces()[i];
                    self@.contains_key(t.voucher_denom) && self@[t.voucher_denom] == t
                },
            forall|i: int, j: int|
                0 <= i < j < self.traces().len() ==> str_lt(
                    (#[trigger] self.traces()[i]).voucher_denom,
                    (#[trigger] self.traces()[j]).voucher_denom,
                ),
            forall|d: Seq<char>| #[trigger]
                self@.contains_key(d) ==> self.traces().contains(self@[d]),
    {
        let s = self.traces.entries();
        let r = self.traces();
        self.traces.lemma_sorted();
        lemma_str_lt_irreflexive(Seq::<char>::empty());
        assert forall|i: int, j: int| 0 <= i < j < r.len() implies str_lt(
            (#[trigger] r[i]).voucher_denom,
            (#[trigger] r[j]).voucher_denom,
        ) by {
            lemma_map_of_index(s, i);
            lemma_map_of_index(s, j);
            assert(self.traces@.contains_key(s[i].0));
            assert(self.traces@.contains_key(s[j].0));
            assert(key_lt(s[i].0, s[j].0));
        }
        assert forall|i: int| 0 <= i < r.len() implies {
            let t = #[trigger] r[i];
            self@.contains_key(t.voucher_denom) && self@[t.voucher_denom] == t
        } by {
            lemma_map_of_index(s, i);
            assert(self.traces@.contains_key(s[i].0));
        }
        assert forall|d: Seq<char>| #[trigger] self@.contains_key(d) implies r.contains(
            self@[d],
        ) by {
            let k = (d, Seq::<char>::empty());
            let j = choose|j: int| 0 <= j < s.len() && #[trigger] s[j].0 == k;
            lemma_map_of_index(s, j);
            assert(r[j] == self@[d]);
        }
    }

    /// A copy of all traces, in the order of their voucher denominations.
    pub fn export(&self) -> (r: Vec<DenomTrace>)
        requires
            self.wf(),
        ensures
            r@.map_values(|t: DenomTrace| t@) == self.traces(),
    {
        let n = self.traces.len();
        let mut out: Vec<DenomTrace> = Vec::new();
        let mut i: usize = 0;
        while i < n
            invariant
                self.wf(),
                n == self.traces.entries().len(),
                i <= n,
                out@.len() == i,
                forall|j: int| 0 <= j < i ==> (#[trigger] out@[j])@ == self.traces()[j],
            decreases n - i,
        {
            out.push(self.traces.value_at(i).duplicate());
            i = i + 1;
        }
        assert(out@.map_values(|t: DenomTrace| t@) =~= self.traces());
        out
    }

    /// A copy of this ledger.
    pub fn duplicate(&self) -> (r: DenomTraceLedger)
        requires
            self.wf(),
        ensures
            r.wf(),
            r@ == self@,
    {
        let mut traces: Table<DenomTrace> = Table::new();
        let n = self.traces.len();
        let mut i: usize = 0;
        proof {
            self.traces.lemma_sorted();
        }
        while i < n
            invariant
                self.wf(),
                traces.wf(),
                n == self.traces.entries().len(),
                i <= n,
                sorted(self.traces.entries()),
                traces.entries() == self.traces.entries().subrange(0, i as int),
            decreases n - i,
        {
            let key = self.traces.key_at(i);
            let copy = Key { head: key.head.clone(), tail: key.tail.clone() };
            proof {
                if i > 0 {
                    assert(traces.entries().last() == self.traces.entries()[i - 1]);
                }
            }
            traces.append(copy, self.traces.value_at(i).duplicate());
            i = i + 1;
            assert(traces.entries() =~= self.traces.entries().subrange(0, i as int));
        }
        assert(traces.entries() =~= self.traces.entries());
        assert(traces@ == self.traces@);
        let r = DenomTraceLedger { traces };
        assert(r@ =~= self@);
        r
    }

    /// The trace of a voucher denomination, if it was ever minted.
    pub fn trace(&self, voucher_denom: &String) -> (r: Option<DenomTrace>)
        requires
            self.wf(),
        ensures
            match r {
                Some(t) => self@.contains_key(voucher_denom@) && t@ == self@[voucher_denom@],
                None => !self@.contains_key(voucher_denom@),
            },
    {
        let key = Key::single(voucher_denom);
        match self.traces.get(&key) {
            Some(t) => Some(t.duplicate()),
            None => None,
        }
    }

    /// Mints `amount` of the voucher for `denom` come over `channel_id`:
    /// writes the trace of the voucher, or finds it written, and gives the
    /// voucher coin.
    pub fn mint(&mut self, channel_id: &String, denom: &String, amount: u128) -> (r: Result<
        Coin,
        Error,
    >)
        requires
            old(self).wf(),
        ensures
            final(self).wf(),
            match r {
                Ok(c) => mint_spec(old(self)@, channel_id@, (denom@, amount)) == Ok::<
                    (TraceMap, CoinView),
                    ErrorView,
                >((final(self)@, c@)),
                Err(e) => mint_spec(old(self)@, channel_id@, (denom@, amount)) == Err::<
                    (TraceMap, CoinView),
                    ErrorView,
                >(e@) && *final(self) == *old(self),
            },
    {
        let voucher = voucher_denom(channel_id, denom);
        let source = !denom_is_voucher(denom);
        let key = Key::single(&voucher);
        match self.traces.get(&key) {
            Some(t) => {
                if t.origin_channel_id == *channel_id && t.origin_denom == *denom {
                    assert(t@ == trace_of(channel_id@, denom@));
                    Ok(Coin { denom: voucher, amount })
                } else {
                    Err(Error::TraceNotFound { denom: voucher })
                }
            },
            None => {
                let trace = DenomTrace {
                    voucher_denom: voucher.clone(),
                    origin_channel_id: channel_id.clone(),
                    origin_denom: denom.clone(),
                    origin_chain_is_source: source,
                };
                let added = self.traces.insert(key, trace);
                assert(added);
                assert(self@ =~= old(self)@.insert(voucher@, trace_of(channel_id@, denom@)));
                Ok(Coin { denom: voucher, amount })
            },
        }
    }

    /// Turns `amount` of a voucher back into what it stands for: gives the
    /// coin of the origin denomination. The ledger stays as it is.
    pub fn unwrap(&self, voucher_denom: &String, amount: u128) -> (r: Result<Coin, Error>)
        requires
            self.wf(),
        ensures
            match r {
                Ok(c) => unwrap_spec(self@, (voucher_denom@, amount)) == Ok::<CoinView, ErrorView>(
                    c@,
                ),
                Err(e) => unwrap_spec(self@, (voucher_denom@, amount)) == Err::<
                    CoinView,
                    ErrorView,
                >(e@),
            },
    {
        let key = Key::single(voucher_denom);
        match self.traces.get(&key) {
            Some(t) => Ok(Coin { denom: t.origin_denom.clone(), amount }),
            None => Err(Error::TraceNotFound { denom: voucher_denom.clone() }),
        }
    }
}

/// A voucher that was minted can be unwrapped at once, and gives back the
/// denomination and the amount that went in.
pub proof fn lemma_mint_then_unwrap(
    ledger: TraceMap,
    channel_id: Seq<char>,
    coin: CoinView,
)
    requires
        mint_spec(ledger, channel_id, coin) is Ok,
    ensures
        ({
            let minted = mint_spec(ledger, channel_id, coin)->Ok_0;
            unwrap_spec(minted.0, minted.1) == Ok::<CoinView, ErrorView>(coin)
        }),
{
}

/// Minting never touches a trace that is there: whatever could be unwrapped
/// before a mint can be unwrapped after it, with the same result.
pub proof fn lemma_mint_keeps_traces(
    ledger: TraceMap,
    channel_id: Seq<char>,
    coin: CoinView,
    voucher: CoinView,
)
    requires
        mint_spec(ledger, channel_id, coin) is Ok,
        unwrap_spec(ledger, voucher) is Ok,
    ensures
        unwrap_spec(mint_spec(ledger, channel_id, coin)->Ok_0.0, voucher) == unwrap_spec(
            ledger,
            voucher,
        ),
{
}

/// A denomination that has no trace cannot be unwrapped.
pub proof fn lemma_unwrap_needs_trace(ledger: TraceMap, voucher: CoinView)
    requires
        !ledger.contains_key(voucher.0),
    ensures
        unwrap_spec(ledger, voucher) == Err::<CoinView, ErrorView>(
            ErrorView::TraceNotFound { denom: voucher.0 },
        ),
{
}

} // verus!
