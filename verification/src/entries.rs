//! The entry points of the contract: what the host calls, on plain values.

use vstd::prelude::*;
use crate::action::{messages_view, SubMessage, SubMessageView};
use crate::channel::{
    connect_spec, open_spec, version_spec, Channel, ChannelMap, ChannelState, Channels,
};
use crate::coin::{coins_view, Coin, CoinView};
use crate::error::{Error, ErrorView};
use crate::factory::{AccountStatus, FactoryBridge, PendingMap};
use crate::ledger::{DenomTraceLedger, TraceMap};
use crate::packet::{receive, receive_post, Packet, Receipt};
use crate::query::{
    account, accounts, active_channel, active_channels, config, query_post, QueryMsg,
    QueryResponse,
};
use crate::registry::{AccountMap, AccountRegistry};
use crate::state::{Config, InstantiateMsg, State};

verus! {

/// The creation of a voucher token is free: no coin of the fee has an
/// amount.
pub open spec fn fee_is_zero(fee: Seq<CoinView>) -> bool {
    forall|i: int| 0 <= i < fee.len() ==> (#[trigger] fee[i]).1 == 0
}

/// Whether the creation of a voucher token is free.
pub fn check_fee(fee: &Vec<Coin>) -> (r: bool)
    ensures
        r == fee_is_zero(coins_view(fee@)),
{
    let mut i: usize = 0;
    while i < fee.len()
        invariant
            i <= fee@.len(),
            forall|j: int| 0 <= j < i ==> (#[trigger] coins_view(fee@)[j]).1 == 0,
        decreases fee@.len() - i,
    {
        if fee[i].amount != 0 {
            assert(coins_view(fee@)[i as int].1 != 0);
            return false;
        }
        i = i + 1;
    }
    true
}

/// Sets the contract up: with its configuration, and with no channel, no
/// account, no waiting request and no trace. The contract refuses to work
/// on a chain that charges for the creation of a voucher token, since a
/// fee would put the voucher accounts out of balance.
pub fn instantiate(msg: InstantiateMsg) -> (r: Result<State, Error>)
    ensures
        match r {
            Ok(state) => {
                &&& fee_is_zero(coins_view(msg.token_creation_fee@))
                &&& state.wf()
                &&& state.config == (Config {
                    default_limit: msg.default_limit,
                    max_limit: msg.max_limit,
                })
                &&& state.channels@ == ChannelMap::empty()
                &&& state.channels.active() == Seq::<(Seq<char>, Seq<char>)>::empty()
                &&& state.accounts@ == AccountMap::empty()
                &&& state.traces@ == TraceMap::empty()
                &&& state.factory.pending() == PendingMap::empty()
                &&& state.factory.checksum() == msg.account_checksum@
                &&& state.factory.creator() == msg.factory@
                &&& state.factory.next_id() == 1
            },
            Err(e) => !fee_is_zero(coins_view(msg.token_creation_fee@)) && e@
                == ErrorView::NonZeroTokenCreationFee,
        },
{
    if !check_fee(&msg.token_creation_fee) {
        return Err(Error::NonZeroTokenCreationFee);
    }
    Ok(
        State {
            config: Config { default_limit: msg.default_limit, max_limit: msg.max_limit },
            channels: Channels::new(),
            accounts: AccountRegistry::new(),
            factory: FactoryBridge::new(msg.account_checksum, msg.factory),
            traces: DenomTraceLedger::new(),
        },
    )
}

/// An execute message. Whatever it says, the contract does nothing and
/// answers with no sub-message.
pub fn execute(state: &mut State) -> (r: Result<Vec<SubMessage>, Error>)
    ensures
        *final(state) == *old(state),
        r matches Ok(messages) && messages@.len() == 0,
{
    Ok(Vec::new())
}

/// Answers a query.
pub fn query(state: &State, msg: &QueryMsg) -> (r: Result<QueryResponse, Error>)
    requires
        state.wf(),
    ensures
        query_post(*state, *msg, r),
{
    match msg {
        QueryMsg::Config {  } => Ok(QueryResponse::Config(config(state))),
        QueryMsg::Account { connection_id, controller } => match account(
            state,
            connection_id,
            controller,
        ) {
            Ok(entry) => Ok(QueryResponse::Account(entry)),
            Err(e) => Err(e),
        },
        QueryMsg::Accounts { start_after, limit } => Ok(
            QueryResponse::Accounts(accounts(state, start_after, *limit)),
        ),
        QueryMsg::ActiveChannel { connection_id } => match active_channel(state, connection_id) {
            Ok(found) => Ok(QueryResponse::ActiveChannel(found)),
            Err(e) => Err(e),
        },
        QueryMsg::ActiveChannels { start_after, limit } => Ok(
            QueryResponse::ActiveChannels(active_channels(state, start_after, *limit)),
        ),
    }
}

/// The first step of a channel handshake, from either end.
#[derive(Clone, Debug, PartialEq, Eq)]
#[allow(inconsistent_fields)]
pub enum ChannelOpenMsg {
    /// This end starts the handshake.
    OpenInit { channel: Channel },
    /// The other end started the handshake, speaking `counterparty_version`.
    OpenTry { channel: Channel, counterparty_version: String },
}

/// The last step of a channel handshake, from either end.
#[derive(Clone, Debug, PartialEq, Eq)]
#[allow(inconsistent_fields)]
pub enum ChannelConnectMsg {
    /// The other end acknowledged, speaking `counterparty_version`.
    OpenAck { channel: Channel, counterparty_version: String },
    /// The other end confirmed.
    OpenConfirm { channel: Channel },
}

/// An attempt to close a channel, from either end.
#[derive(Clone, Debug, PartialEq, Eq)]
pub enum ChannelCloseMsg {
    CloseInit { channel: Channel },
    CloseConfirm { channel: Channel },
}

/// Nothing but the channels differs between the two states.
pub open spec fn only_channels_differ(before: State, after: State) -> bool {
    &&& after.config == before.config
    &&& after.accounts == before.accounts
    &&& after.factory == before.factory
    &&& after.traces == before.traces
}

/// The first step of a channel handshake. The channel must be ordered and
/// speak the protocol's version. Where this end starts the handshake, the
/// connection must have no channel on record; where the other end started
/// it, the connection must have no open channel, and a record that is not
/// open yet is replaced. Then the channel is recorded. The answer is the
/// version that this end chooses: none where it started the handshake
/// itself.
pub fn ibc_channel_open(state: &mut State, msg: &ChannelOpenMsg) -> (r: Result<
    Option<String>,
    Error,
>)
    requires
        old(state).wf(),
    ensures
        final(state).wf(),
        only_channels_differ(*old(state), *final(state)),
        final(state).channels.active() == old(state).channels.active(),
        match *msg {
            ChannelOpenMsg::OpenInit { channel } => match r {
                Ok(version) => version is None && open_spec(
                    old(state).channels@,
                    channel@,
                    None,
                    ChannelState::Init,
                ) == Ok::<ChannelMap, ErrorView>(final(state).channels@),
                Err(e) => *final(state) == *old(state) && open_spec(
                    old(state).channels@,
                    channel@,
                    None,
                    ChannelState::Init,
                ) == Err::<ChannelMap, ErrorView>(e@),
            },
            ChannelOpenMsg::OpenTry { channel, counterparty_version } => match r {
                Ok(version) => version matches Some(v) && v@ == version_spec()
                    && open_spec(
                    old(state).channels@,
                    channel@,
                    Some(counterparty_version@),
                    ChannelState::TryOpen,
                ) == Ok::<ChannelMap, ErrorView>(final(state).channels@),
                Err(e) => *final(state) == *old(state) && open_spec(
                    old(state).channels@,
                    channel@,
                    Some(counterparty_version@),
                    ChannelState::TryOpen,
                ) == Err::<ChannelMap, ErrorView>(e@),
            },
        },
{
    match msg {
        ChannelOpenMsg::OpenInit { channel } => state.channels.open_init(channel),
        ChannelOpenMsg::OpenTry { channel, counterparty_version } => state.channels.open_try(
            channel,
            counterparty_version,
        ),
    }
}

/// The channel that a connect message speaks of.
pub open spec fn connect_channel(msg: ChannelConnectMsg) -> Channel {
    match msg {
        ChannelConnectMsg::OpenAck { channel, .. } => channel,
        ChannelConnectMsg::OpenConfirm { channel } => channel,
    }
}

/// The version of the other end, where a connect message tells it.
pub open spec fn connect_version(msg: ChannelConnectMsg) -> Option<Seq<char>> {
    match msg {
        ChannelConnectMsg::OpenAck { counterparty_version, .. } => Some(counterparty_version@),
        ChannelConnectMsg::OpenConfirm { .. } => None,
    }
}

/// The last step of a channel handshake: the channel on record is opened,
/// and packets may flow from now on.
pub fn ibc_channel_connect(state: &mut State, msg: &ChannelConnectMsg) -> (r: Result<(), Error>)
    requires
        old(state).wf(),
    ensures
        final(state).wf(),
        only_channels_differ(*old(state), *final(state)),
        match r {
            Ok(_) => connect_spec(
                old(state).channels@,
                connect_channel(*msg)@,
                connect_version(*msg),
            ) == Ok::<ChannelMap, ErrorView>(final(state).channels@),
            Err(e) => *final(state) == *old(state) && connect_spec(
                old(state).channels@,
                connect_channel(*msg)@,
                connect_version(*msg),
            ) == Err::<ChannelMap, ErrorView>(e@),
        },
{
    match msg {
        ChannelConnectMsg::OpenAck { channel, counterparty_version } => state.channels.open_connect(
            channel,
            Some(counterparty_version),
        ),
        ChannelConnectMsg::OpenConfirm { channel } => state.channels.open_connect(channel, None),
    }
}

/// An attempt to close a channel, from whichever end and on whatever
/// channel: it is refused, and nothing changes.
pub fn ibc_channel_close(state: &mut State, msg: &ChannelCloseMsg) -> (r: Result<(), Error>)
    ensures
        *final(state) == *old(state),
        r matches Err(e) && e@ == ErrorView::UnexpectedChannelClosure,
{
    match msg {
        ChannelCloseMsg::CloseInit { channel } => state.channels.close(channel),
        ChannelCloseMsg::CloseConfirm { channel } => state.channels.close(channel),
    }
}

/// What one action came to.
#[derive(Clone, Debug, PartialEq, Eq)]
pub enum ActionResult {
    /// A transfer: the coin that the recipient gets.
    Transfer { coin: Coin },
    /// A call.
    Execute,
}

/// The mathematical value of an [`ActionResult`].
pub enum ActionResultView {
    Transfer { coin: CoinView },
    Execute,
}

impl View for ActionResult {
    type V = ActionResultView;

    open spec fn view(&self) -> ActionResultView {
        match *self {
            ActionResult::Transfer { coin } => ActionResultView::Transfer { coin: coin@ },
            ActionResult::Execute => ActionResultView::Execute,
        }
    }
}

/// What the action behind a sub-message came to.
pub open spec fn result_of(message: SubMessageView) -> ActionResultView {
    match message {
        SubMessageView::Mint { coin, .. } => ActionResultView::Transfer { coin },
        SubMessageView::Release { coin, .. } => ActionResultView::Transfer { coin },
        SubMessageView::Execute { .. } => ActionResultView::Execute,
    }
}

/// What the actions behind a list of sub-messages came to, in order.
pub fn results_of(messages: &Vec<SubMessage>) -> (r: Vec<ActionResult>)
    ensures
        r@.map_values(|a: ActionResult| a@) == messages_view(messages@).map_values(
            |m: SubMessageView| result_of(m),
        ),
{
    let mut out: Vec<ActionResult> = Vec::new();
    let mut i: usize = 0;
    while i < messages.len()
        invariant
            i <= messages@.len(),
            out@.len() == i,
            forall|j: int| 0 <= j < i ==> (#[trigger] out@[j])@ == result_of(messages@[j]@),
        decreases messages@.len() - i,
    {
        let result = match &messages[i] {
            SubMessage::Mint { coin, .. } => ActionResult::Transfer { coin: coin.duplicate() },
            SubMessage::Release { coin, .. } => ActionResult::Transfer { coin: coin.duplicate() },
            SubMessage::Execute { .. } => ActionResult::Execute,
        };
        out.push(result);
        i = i + 1;
    }
    assert(out@.map_values(|a: ActionResult| a@) =~= messages_view(messages@).map_values(
        |m: SubMessageView| result_of(m),
    ));
    out
}

/// What the other chain is told of a packet.
#[derive(Debug, PartialEq)]
pub enum Ack {
    /// Every action of the queue was taken up: what each came to, in order.
    Results(Vec<ActionResult>),
    /// The packet failed as a whole, with this error.
    Failed(Error),
}

/// The answer to a packet: the acknowledgement, and what the host is to do
/// for it. A packet that failed asks nothing of the host.
#[derive(Debug, PartialEq)]
pub struct ReceiveResponse {
    pub ack: Ack,
    pub account: Option<AccountStatus>,
    pub messages: Vec<SubMessage>,
}

/// Receives a packet and acknowledges it. The packet is carried out as a
/// whole or not at all: where anything fails, the state stays as it was,
/// the host is asked nothing, and the acknowledgement tells the error.
pub fn ibc_packet_receive(state: &mut State, packet: &Packet) -> (r: ReceiveResponse)
    requires
        old(state).wf(),
    ensures
        final(state).wf(),
        match r.ack {
            Ack::Failed(e) => {
                &&& *final(state) == *old(state)
                &&& r.account is None
                &&& r.messages@.len() == 0
                &&& receive_post(*old(state), *packet, Err(e), *final(state))
            },
            Ack::Results(results) => {
                &&& r.account matches Some(account)
                &&& receive_post(
                    *old(state),
                    *packet,
                    Ok(Receipt { account, messages: r.messages }),
                    *final(state),
                )
                &&& results@.map_values(|a: ActionResult| a@) == messages_view(
                    r.messages@,
                ).map_values(|m: SubMessageView| result_of(m))
            },
        },
{
    match receive(state, packet) {
        Ok(receipt) => ReceiveResponse {
            ack: Ack::Results(results_of(&receipt.messages)),
            account: Some(receipt.account),
            messages: receipt.messages,
        },
        Err(e) => ReceiveResponse { ack: Ack::Failed(e), account: None, messages: Vec::new() },
    }
}

} // verus!
