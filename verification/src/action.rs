//! Actions, the sub-messages that carry them out, and how a queue of
//! actions is run against the ledger of denom traces.
//!
//! A queue is run in order and all or nothing: the first action that fails
//! fails the queue, and nothing that earlier actions did is kept.

use vstd::prelude::*;
use crate::coin::{coins_view, Coin, CoinView, Coins};
use crate::error::{Error, ErrorView};
use crate::text::copy_bytes;
use crate::ledger::{
    denom_is_voucher_of, is_voucher_of, mint_spec, unwrap_spec, DenomTraceLedger, TraceMap,
};

verus! {

/// One thing that a controller asks its account to do.
#[derive(Clone, Debug, PartialEq, Eq)]
#[allow(inconsistent_fields)]
pub enum Action {
    /// Move `amount` of `denom` across the channel to `recipient`.
    Transfer { denom: String, amount: u128, recipient: String },
    /// Call the contract `target` with `payload`, sending `funds` along.
    Execute { target: String, payload: Vec<u8>, funds: Vec<Coin> },
}

/// The mathematical value of an [`Action`].
#[allow(inconsistent_fields)]
pub enum ActionView {
    Transfer { denom: Seq<char>, amount: u128, recipient: Seq<char> },
    Execute { target: Seq<char>, payload: Seq<u8>, funds: Seq<CoinView> },
}

impl View for Action {
    type V = ActionView;

    open spec fn view(&self) -> ActionView {
        match *self {
            Action::Transfer { denom, amount, recipient } => ActionView::Transfer {
                denom: denom@,
                amount,
                recipient: recipient@,
            },
            Action::Execute { target, payload, funds } => ActionView::Execute {
                target: target@,
                payload: payload@,
                funds: coins_view(funds@),
            },
        }
    }
}

/// The values of a queue of actions, in order.
pub open spec fn actions_view(actions: Seq<Action>) -> Seq<ActionView> {
    actions.map_values(|a: Action| a@)
}

/// A message that the host is to run in the name of the account, as a
/// sub-message of the packet's transaction.
#[derive(Clone, Debug, PartialEq, Eq)]
#[allow(inconsistent_fields)]
pub enum SubMessage {
    /// Mint the voucher `coin` to `recipient`.
    Mint { coin: Coin, recipient: String },
    /// Take the voucher `voucher` out of circulation and hand `coin`, what
    /// it stands for, to `recipient`.
    Release { voucher: Coin, coin: Coin, recipient: String },
    /// Call the contract `target` with `payload`, sending `funds` along.
    Execute { target: String, payload: Vec<u8>, funds: Vec<Coin> },
}

/// The mathematical value of a [`SubMessage`].
#[allow(inconsistent_fields)]
pub enum SubMessageView {
    Mint { coin: CoinView, recipient: Seq<char> },
    Release { voucher: CoinView, coin: CoinView, recipient: Seq<char> },
    Execute { target: Seq<char>, payload: Seq<u8>, funds: Seq<CoinView> },
}

impl View for SubMessage {
    type V = SubMessageView;

    open spec fn view(&self) -> SubMessageView {
        match *self {
            SubMessage::Mint { coin, recipient } => SubMessageView::Mint {
                coin: coin@,
                recipient: recipient@,
            },
            SubMessage::Release { voucher, coin, recipient } => SubMessageView::Release {
                voucher: voucher@,
                coin: coin@,
                recipient: recipient@,
            },
            SubMessage::Execute { target, payload, funds } => SubMessageView::Execute {
                target: target@,
                payload: payload@,
                funds: coins_view(funds@),
            },
        }
    }
}

/// The values of a list of sub-messages, in order.
pub open spec fn messages_view(messages: Seq<SubMessage>) -> Seq<SubMessageView> {
    messages.map_values(|m: SubMessage| m@)
}

/// The state in which a queue is run: the ledger, the sub-messages made so
/// far, and how many of the declared funds are used up.
pub struct Progress {
    pub ledger: TraceMap,
    pub messages: Seq<SubMessageView>,
    pub cursor: nat,
}

/// What the funds declared for a transfer lack: the next declared coin, if
/// there is one, must be exactly the coin that the transfer names.
pub open spec fn funds_fault(funds: Seq<CoinView>, cursor: nat, coin: CoinView) -> Option<
    ErrorView,
> {
    if cursor < funds.len() && funds[cursor as int] == coin {
        None
    } else {
        Some(
            ErrorView::FundsMismatch {
                actual: if cursor < funds.len() {
                    seq![funds[cursor as int]]
                } else {
                    Seq::<CoinView>::empty()
                },
                expected: seq![coin],
            },
        )
    }
}

/// What one action does. A call becomes a sub-message as it is. A transfer
/// uses up the next declared coin, which must be its own; then a voucher of
/// this channel is unwrapped, and any other token is minted as a voucher.
pub open spec fn step_spec(
    ledger: TraceMap,
    channel_id: Seq<char>,
    action: ActionView,
    funds: Seq<CoinView>,
    cursor: nat,
) -> Result<(TraceMap, SubMessageView, nat), ErrorView> {
    match action {
        ActionView::Execute { target, payload, funds: sent } => Ok(
            (ledger, SubMessageView::Execute { target, payload, funds: sent }, cursor),
        ),
        ActionView::Transfer { denom, amount, recipient } => match funds_fault(
            funds,
            cursor,
            (denom, amount),
        ) {
            Some(e) => Err(e),
            None => if is_voucher_of(channel_id, denom) {
                match unwrap_spec(ledger, (denom, amount)) {
                    Ok(coin) => Ok(
                        (
                            ledger,
                            SubMessageView::Release { voucher: (denom, amount), coin, recipient },
                            cursor + 1,
                        ),
                    ),
                    Err(e) => Err(e),
                }
            } else {
                match mint_spec(ledger, channel_id, (denom, amount)) {
                    Ok((minted, coin)) => Ok(
                        (minted, SubMessageView::Mint { coin, recipient }, cursor + 1),
                    ),
                    Err(e) => Err(e),
                }
            },
        },
    }
}

/// What running actions in order does, from a ledger and a position in the
/// declared funds: the steps one after the other, up to the first that
/// fails.
pub open spec fn run_spec(
    ledger: TraceMap,
    channel_id: Seq<char>,
    actions: Seq<ActionView>,
    funds: Seq<CoinView>,
) -> Result<Progress, ErrorView>
    decreases actions.len(),
{
    if actions.len() == 0 {
        Ok(Progress { ledger, messages: Seq::empty(), cursor: 0 })
    } else {
        match run_spec(ledger, channel_id, actions.drop_last(), funds) {
            Err(e) => Err(e),
            Ok(before) => match step_spec(
                before.ledger,
                channel_id,
                actions.last(),
                funds,
                before.cursor,
            ) {
                Err(e) => Err(e),
                Ok((ledger, message, cursor)) => Ok(
                    Progress { ledger, messages: before.messages.push(message), cursor },
                ),
            },
        }
    }
}

/// What running a whole queue does: all its actions in order, and then no
/// declared coin may be left over.
pub open spec fn queue_spec(
    ledger: TraceMap,
    channel_id: Seq<char>,
    actions: Seq<ActionView>,
    funds: Seq<CoinView>,
) -> Result<(TraceMap, Seq<SubMessageView>), ErrorView> {
    match run_spec(ledger, channel_id, actions, funds) {
        Err(e) => Err(e),
        Ok(done) => if done.cursor == funds.len() {
            Ok((done.ledger, done.messages))
        } else {
            Err(
                ErrorView::FundsMismatch {
                    actual: funds.subrange(done.cursor as int, funds.len() as int),
                    expected: Seq::<CoinView>::empty(),
                },
            )
        },
    }
}

/// Once the first `i` actions of a queue have failed, the queue has failed
/// with the same error.
pub proof fn lemma_failure_sticks(
    ledger: TraceMap,
    channel_id: Seq<char>,
    actions: Seq<ActionView>,
    funds: Seq<CoinView>,
    i: int,
)
    requires
        0 <= i <= actions.len(),
        run_spec(ledger, channel_id, actions.take(i), funds) is Err,
    ensures
        run_spec(ledger, channel_id, actions, funds) == run_spec(
            ledger,
            channel_id,
            actions.take(i),
            funds,
        ),
    decreases actions.len() - i,
{
    if i == actions.len() {
        assert(actions.take(i) =~= actions);
    } else {
        assert(actions.take(i + 1).drop_last() =~= actions.take(i));
        lemma_failure_sticks(ledger, channel_id, actions, funds, i + 1);
    }
}

/// A queue in which one action fails, fails as a whole, with the error of
/// that action: if the actions before position `i` run through and the
/// action at `i` then fails, no ledger and no sub-message comes out of the
/// queue.
pub proof fn lemma_one_failure_fails_queue(
    ledger: TraceMap,
    channel_id: Seq<char>,
    actions: Seq<ActionView>,
    funds: Seq<CoinView>,
    i: int,
)
    requires
        0 <= i < actions.len(),
        run_spec(ledger, channel_id, actions.take(i), funds) is Ok,
        step_spec(
            run_spec(ledger, channel_id, actions.take(i), funds)->Ok_0.ledger,
            channel_id,
            actions[i],
            funds,
            run_spec(ledger, channel_id, actions.take(i), funds)->Ok_0.cursor,
        ) is Err,
    ensures
        queue_spec(ledger, channel_id, actions, funds) is Err,
        queue_spec(ledger, channel_id, actions, funds)->Err_0 == step_spec(
            run_spec(ledger, channel_id, actions.take(i), funds)->Ok_0.ledger,
            channel_id,
            actions[i],
            funds,
            run_spec(ledger, channel_id, actions.take(i), funds)->Ok_0.cursor,
        )->Err_0,
{
    assert(actions.take(i + 1).drop_last() =~= actions.take(i));
    assert(actions.take(i + 1).last() == actions[i]);
    lemma_failure_sticks(ledger, channel_id, actions, funds, i + 1);
}

/// Carries out one action on the ledger, with the declared funds from
/// position `cursor` on still unused. Gives the sub-message for the host
/// and the position after the action.
pub fn step(
    ledger: &mut DenomTraceLedger,
    channel_id: &String,
    action: &Action,
    funds: &Vec<Coin>,
    cursor: usize,
) -> (r: Result<(SubMessage, usize), Error>)
    requires
        old(ledger).wf(),
    ensures
        final(ledger).wf(),
        match r {
            Ok((message, next)) => (cursor <= funds@.len() ==> next <= funds@.len()) && step_spec(
                old(ledger)@,
                channel_id@,
                action@,
                coins_view(funds@),
                cursor as nat,
            ) == Ok::<(TraceMap, SubMessageView, nat), ErrorView>(
                (final(ledger)@, message@, next as nat),
            ),
            Err(e) => *final(ledger) == *old(ledger) && step_spec(
                old(ledger)@,
                channel_id@,
                action@,
                coins_view(funds@),
                cursor as nat,
            ) == Err::<(TraceMap, SubMessageView, nat), ErrorView>(e@),
        },
{
    match action {
        Action::Execute { target, payload, funds: sent } => {
            let message = SubMessage::Execute {
                target: target.clone(),
                payload: copy_bytes(payload),
                funds: Coins::suffix(sent, 0).coins,
            };
            assert(coins_view(sent@).subrange(0, sent@.len() as int) =~= coins_view(sent@));
            Ok((message, cursor))
        },
        Action::Transfer { denom, amount, recipient } => {
            if cursor >= funds.len() {
                return Err(
                    Error::FundsMismatch {
                        actual: Coins::empty(),
                        expected: Coins::one(denom, *amount),
                    },
                );
            }
            let declared = &funds[cursor];
            if declared.denom != *denom || declared.amount != *amount {
                return Err(
                    Error::FundsMismatch {
                        actual: Coins::one(&declared.denom, declared.amount),
                        expected: Coins::one(denom, *amount),
                    },
                );
            }
            if denom_is_voucher_of(channel_id, denom) {
                match ledger.unwrap(denom, *amount) {
                    Ok(coin) => Ok(
                        (
                            SubMessage::Release {
                                voucher: Coin { denom: denom.clone(), amount: *amount },
                                coin,
                                recipient: recipient.clone(),
                            },
                            cursor + 1,
                        ),
                    ),
                    Err(e) => Err(e),
                }
            } else {
                match ledger.mint(channel_id, denom, *amount) {
                    Ok(coin) => Ok(
                        (SubMessage::Mint { coin, recipient: recipient.clone() }, cursor + 1),
                    ),
                    Err(e) => Err(e),
                }
            }
        },
    }
}

/// Runs a queue of actions on the ledger. On an error the ledger is as it
/// was before.
pub fn run_queue(
    ledger: &mut DenomTraceLedger,
    channel_id: &String,
    actions: &Vec<Action>,
    funds: &Vec<Coin>,
) -> (r: Result<Vec<SubMessage>, Error>)
    requires
        old(ledger).wf(),
    ensures
        final(ledger).wf(),
        match r {
            Ok(messages) => queue_spec(
                old(ledger)@,
                channel_id@,
                actions_view(actions@),
                coins_view(funds@),
            ) == Ok::<(TraceMap, Seq<SubMessageView>), ErrorView>(
                (final(ledger)@, messages_view(messages@)),
            ),
            Err(e) => *final(ledger) == *old(ledger) && queue_spec(
                old(ledger)@,
                channel_id@,
                actions_view(actions@),
                coins_view(funds@),
            ) == Err::<(TraceMap, Seq<SubMessageView>), ErrorView>(e@),
        },
{
    let ghost queue = actions_view(actions@);
    let ghost declared = coins_view(funds@);
    let mut working = ledger.duplicate();
    let mut messages: Vec<SubMessage> = Vec::new();
    let mut cursor: usize = 0;
    let mut i: usize = 0;
    assert(messages_view(messages@) =~= Seq::<SubMessageView>::empty());
    while i < actions.len()
        invariant
            ledger.wf(),
            working.wf(),
            queue == actions_view(actions@),
            declared == coins_view(funds@),
            i <= actions@.len(),
            cursor <= funds@.len(),
            run_spec(ledger@, channel_id@, queue.take(i as int), declared) == Ok::<
                Progress,
                ErrorView,
            >(
                Progress {
                    ledger: working@,
                    messages: messages_view(messages@),
                    cursor: cursor as nat,
                },
            ),
        decreases actions@.len() - i,
    {
        proof {
            assert(queue.take(i + 1).drop_last() =~= queue.take(i as int));
            assert(queue.take(i + 1).last() == actions@[i as int]@);
        }
        let ghost before = messages@;
        match step(&mut working, channel_id, &actions[i], funds, cursor) {
            Ok((message, next)) => {
                messages.push(message);
                cursor = next;
                proof {
                    assert(messages_view(messages@) =~= messages_view(before).push(message@));
                }
            },
            Err(e) => {
                proof {
                    lemma_failure_sticks(ledger@, channel_id@, queue, declared, i + 1);
                }
                return Err(e);
            },
        }
        i = i + 1;
    }
    proof {
        assert(queue.take(i as int) =~= queue);
    }
    if cursor != funds.len() {
        return Err(
            Error::FundsMismatch { actual: Coins::suffix(funds, cursor), expected: Coins::empty() },
        );
    }
    *ledger = working;
    Ok(messages)
}

} // verus!
