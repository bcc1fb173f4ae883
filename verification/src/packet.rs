//! The execution of a packet.
//!
//! A packet names a controller and carries a queue of actions. The contract
//! finds or requests the controller's account, runs the queue, and either
//! gives the sub-messages that carry the actions out or fails as a whole.

use vstd::prelude::*;
use crate::action::{
    actions_view, lemma_one_failure_fails_queue, messages_view, queue_spec, run_queue, run_spec,
    step_spec, Action, ActionView, SubMessage,
};
use crate::channel::{has_open_channel, ChannelMap};
use crate::coin::{coins_view, Coin, CoinView};
use crate::error::{Error, ErrorView};
use crate::factory::{address_fault, instantiate2_address_of, salt_spec, AccountStatus};
use crate::state::State;

verus! {

/// What a packet says: who speaks, what is to be done, and the funds that
/// the controller's chain holds back for the transfers of the queue, one
/// coin for each transfer, in order.
#[derive(Clone, Debug, PartialEq, Eq)]
pub struct PacketData {
    pub controller: String,
    pub actions: Vec<Action>,
    pub funds: Vec<Coin>,
}

/// A packet as it arrives: the port and the channel at which it arrived,
/// and what it says.
#[derive(Clone, Debug, PartialEq, Eq)]
pub struct Packet {
    pub port_id: String,
    pub channel_id: String,
    pub data: PacketData,
}

/// The mathematical value of a [`Packet`].
pub struct PacketView {
    pub port_id: Seq<char>,
    pub channel_id: Seq<char>,
    pub controller: Seq<char>,
    pub actions: Seq<ActionView>,
    pub funds: Seq<CoinView>,
}

impl View for Packet {
    type V = PacketView;

    open spec fn view(&self) -> PacketView {
        PacketView {
            port_id: self.port_id@,
            channel_id: self.channel_id@,
            controller: self.data.controller@,
            actions: actions_view(self.data.actions@),
            funds: coins_view(self.data.funds@),
        }
    }
}

/// What came of a packet: how the controller's account stands, and the
/// sub-messages that the host is to run in the account's name, one for each
/// action, in order. Where the account was only requested, the host sends
/// the request to the factory first.
#[derive(Clone, Debug, PartialEq, Eq)]
pub struct Receipt {
    pub account: AccountStatus,
    pub messages: Vec<SubMessage>,
}

/// Why a packet is turned away before anything is done, if so: its queue is
/// empty, or it did not arrive at an open channel.
pub open spec fn admission_fault(
    channels: ChannelMap,
    packet: PacketView,
) -> Option<ErrorView> {
    if packet.actions.len() == 0 {
        Some(ErrorView::EmptyActionQueue)
    } else if !has_open_channel(channels, packet.port_id, packet.channel_id) {
        Some(ErrorView::ChannelNotFound { port_id: packet.port_id, channel_id: packet.channel_id })
    } else {
        None
    }
}

/// What receiving a packet does, from the state `before` to the state
/// `after`. The packet is admitted, then the account is found or requested,
/// then the queue is run; the first of these that fails gives the error, and
/// then the state stays as it was.
pub open spec fn receive_post(
    before: State,
    packet: Packet,
    r: Result<Receipt, Error>,
    after: State,
) -> bool {
    let key = (packet.channel_id@, packet.data.controller@);
    let salt = salt_spec(packet.channel_id@, packet.data.controller@);
    let queue = queue_spec(
        before.traces@,
        packet.channel_id@,
        actions_view(packet.data.actions@),
        coins_view(packet.data.funds@),
    );
    match r {
        Err(e) => {
            &&& after == before
            &&& match admission_fault(before.channels@, packet@) {
                Some(fault) => e@ == fault,
                None => if before.accounts@.contains_key(key) {
                    queue matches Err(fault) && fault == e@
                } else {
                    match address_fault(before.factory.checksum(), salt) {
                        Some(fault) => e@ == ErrorView::Instantiate2Address(fault),
                        None => if before.factory.next_id() == u64::MAX {
                            e@ is Overflow
                        } else {
                            queue matches Err(fault) && fault == e@
                        },
                    }
                },
            }
        },
        Ok(receipt) => {
            &&& admission_fault(before.channels@, packet@) is None
            &&& queue matches Ok(done)
            &&& done == (after.traces@, messages_view(receipt.messages@))
            &&& after.config == before.config
            &&& after.channels == before.channels
            &&& after.accounts == before.accounts
            &&& after.factory.checksum() == before.factory.checksum()
            &&& after.factory.creator() == before.factory.creator()
            &&& match receipt.account {
                AccountStatus::Existing { address } => {
                    &&& before.accounts@.contains_key(key)
                    &&& address@ == before.accounts@[key]
                    &&& after.factory.next_id() == before.factory.next_id()
                    &&& after.factory.pending() == before.factory.pending()
                },
                AccountStatus::Requested { id, salt: used, address } => {
                    &&& !before.accounts@.contains_key(key)
                    &&& used@ == salt
                    &&& address_fault(before.factory.checksum(), salt) is None
                    &&& address@ == instantiate2_address_of(
                        before.factory.checksum(),
                        before.factory.creator(),
                        salt,
                    )
                    &&& id == before.factory.next_id()
                    &&& after.factory.next_id() == id + 1
                    &&& after.factory.pending() == before.factory.pending().insert(id, key)
                },
            }
        },
    }
}

/// A packet whose queue is empty is rejected as such, whatever else it
/// says, and changes nothing.
pub proof fn lemma_empty_queue_is_rejected(
    before: State,
    packet: Packet,
    r: Result<Receipt, Error>,
    after: State,
)
    requires
        receive_post(before, packet, r, after),
        packet.data.actions@.len() == 0,
    ensures
        r matches Err(e) && e@ == ErrorView::EmptyActionQueue,
        after == before,
{
}

/// A packet in which one action fails, fails as a whole and changes
/// nothing: if the actions before position `i` run through and the action at
/// `i` then fails, the packet is not taken up and the state stays as it was.
pub proof fn lemma_failed_action_changes_nothing(
    before: State,
    packet: Packet,
    r: Result<Receipt, Error>,
    after: State,
    i: int,
)
    requires
        receive_post(before, packet, r, after),
        0 <= i < packet@.actions.len(),
        run_spec(before.traces@, packet@.channel_id, packet@.actions.take(i), packet@.funds) is Ok,
        step_spec(
            run_spec(
                before.traces@,
                packet@.channel_id,
                packet@.actions.take(i),
                packet@.funds,
            )->Ok_0.ledger,
            packet@.channel_id,
            packet@.actions[i],
            packet@.funds,
            run_spec(
                before.traces@,
                packet@.channel_id,
                packet@.actions.take(i),
                packet@.funds,
            )->Ok_0.cursor,
        ) is Err,
    ensures
        r is Err,
        after == before,
{
    lemma_one_failure_fails_queue(
        before.traces@,
        packet@.channel_id,
        packet@.actions,
        packet@.funds,
        i,
    );
}

/// Receives a packet: admits it, finds or requests the account of its
/// controller, and runs its queue. On an error nothing changes.
pub fn receive(state: &mut State, packet: &Packet) -> (r: Result<Receipt, Error>)
    requires
        old(state).wf(),
    ensures
        final(state).wf(),
        receive_post(*old(state), *packet, r, *final(state)),
{
    if packet.data.actions.len() == 0 {
        return Err(Error::EmptyActionQueue);
    }
    if !state.channels.is_open(&packet.port_id, &packet.channel_id) {
        return Err(
            Error::ChannelNotFound {
                port_id: packet.port_id.clone(),
                channel_id: packet.channel_id.clone(),
            },
        );
    }
    let mut factory = state.factory.duplicate();
    let account = match factory.ensure_account(
        &state.accounts,
        &packet.channel_id,
        &packet.data.controller,
    ) {
        Ok(account) => account,
        Err(e) => {
            return Err(e);
        },
    };
    let messages = match run_queue(
        &mut state.traces,
        &packet.channel_id,
        &packet.data.actions,
        &packet.data.funds,
    ) {
        Ok(messages) => messages,
        Err(e) => {
            return Err(e);
        },
    };
    state.factory = factory;
    Ok(Receipt { account, messages })
}

} // verus!
