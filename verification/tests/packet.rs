use ics999_core::action::{run_queue, step, Action, SubMessage};
use ics999_core::channel::Channel;
use ics999_core::coin::{Coin, Coins};
use ics999_core::entries::{
    execute, ibc_packet_receive, instantiate, results_of, Ack, ActionResult, ReceiveResponse,
};
use ics999_core::error::{AddressError, ChannelOrder, Error};
use ics999_core::factory::{account_salt, AccountStatus};
use ics999_core::ledger::DenomTraceLedger;
use ics999_core::packet::{receive, Packet, PacketData, Receipt};
use ics999_core::state::{InstantiateMsg, State};

fn s(text: &str) -> String {
    text.to_string()
}

fn coin(denom: &str, amount: u128) -> Coin {
    Coin { denom: s(denom), amount }
}

fn transfer(denom: &str, amount: u128, recipient: &str) -> Action {
    Action::Transfer { denom: s(denom), amount, recipient: s(recipient) }
}

fn call(target: &str) -> Action {
    Action::Execute { target: s(target), payload: vec![1, 2, 3], funds: vec![coin("ujuno", 4)] }
}

fn state_with_open_channel() -> State {
    let mut state = instantiate(InstantiateMsg {
        account_checksum: vec![7u8; 32],
        factory: vec![1u8; 20],
        default_limit: 10,
        max_limit: 30,
        token_creation_fee: vec![coin("uatom", 0)],
    })
    .unwrap();
    let channel = Channel {
        connection_id: s("connection-0"),
        port_id: s("wasm.host"),
        channel_id: s("channel-0"),
        counterparty_port_id: s("wasm.controller"),
        order: ChannelOrder::Ordered,
        version: s("ics999-1"),
    };
    state.channels.open_init(&channel).unwrap();
    state.channels.open_connect(&channel, None).unwrap();
    state.accounts.register(&s("channel-0"), &s("addr1"), s("account-a")).unwrap();
    state
}

fn packet(controller: &str, actions: Vec<Action>, funds: Vec<Coin>) -> Packet {
    Packet {
        port_id: s("wasm.host"),
        channel_id: s("channel-0"),
        data: PacketData { controller: s(controller), actions, funds },
    }
}

fn failed(response: &ReceiveResponse) -> &Error {
    match &response.ack {
        Ack::Failed(e) => e,
        other => panic!("unexpected {:?}", other),
    }
}

#[test]
fn instantiate_refuses_a_token_creation_fee() {
    let msg = |fee: Vec<Coin>| InstantiateMsg {
        account_checksum: vec![7u8; 32],
        factory: vec![1u8; 20],
        default_limit: 10,
        max_limit: 30,
        token_creation_fee: fee,
    };
    assert_eq!(
        instantiate(msg(vec![coin("uatom", 0), coin("uosmo", 1)])).err(),
        Some(Error::NonZeroTokenCreationFee)
    );
    let state = instantiate(msg(vec![coin("uatom", 0)])).unwrap();
    assert_eq!(state.config.default_limit, 10);
    assert_eq!(state.config.max_limit, 30);
    assert_eq!(state.channels.export(), vec![]);
    assert_eq!(state.accounts.len(), 0);
    assert_eq!(state.traces.export(), vec![]);
    assert_eq!(state.factory.export(), vec![]);
    assert_eq!(state.factory.next_request_id(), 1);
    assert_eq!(state.factory.code_checksum(), vec![7u8; 32]);
    assert_eq!(state.factory.creator_address(), vec![1u8; 20]);
    assert!(instantiate(msg(vec![])).is_ok());
}

#[test]
fn execute_does_nothing() {
    let mut state = state_with_open_channel();
    assert_eq!(execute(&mut state), Ok(vec![]));
    assert_eq!(state.accounts.len(), 1);
    assert_eq!(state.channels.export().len(), 1);
}

#[test]
fn packet_with_empty_queue_is_rejected() {
    let mut state = state_with_open_channel();
    let p = packet("addr1", vec![], vec![]);
    assert_eq!(receive(&mut state, &p), Err(Error::EmptyActionQueue));
    let response = ibc_packet_receive(&mut state, &p);
    assert_eq!(
        response,
        ReceiveResponse { ack: Ack::Failed(Error::EmptyActionQueue), account: None, messages: vec![] }
    );
    assert_eq!(state.traces.export(), vec![]);
    assert_eq!(state.factory.export(), vec![]);
    assert_eq!(state.accounts.len(), 1);
}

#[test]
fn empty_queue_is_rejected_before_anything_else() {
    let mut state = state_with_open_channel();
    let mut p = packet("stranger", vec![], vec![coin("uatom", 1)]);
    p.channel_id = s("channel-404");
    assert_eq!(receive(&mut state, &p), Err(Error::EmptyActionQueue));
    assert_eq!(state.factory.next_request_id(), 1);
}

#[test]
fn packet_needs_an_open_channel() {
    let mut state = state_with_open_channel();
    let mut p = packet("addr1", vec![call("contract")], vec![]);
    p.channel_id = s("channel-1");
    assert_eq!(
        receive(&mut state, &p),
        Err(Error::ChannelNotFound { port_id: s("wasm.host"), channel_id: s("channel-1") })
    );
    let channel = Channel {
        connection_id: s("connection-1"),
        port_id: s("wasm.host"),
        channel_id: s("channel-1"),
        counterparty_port_id: s("wasm.controller"),
        order: ChannelOrder::Ordered,
        version: s("ics999-1"),
    };
    state.channels.open_init(&channel).unwrap();
    assert_eq!(
        receive(&mut state, &p),
        Err(Error::ChannelNotFound { port_id: s("wasm.host"), channel_id: s("channel-1") })
    );
    state.channels.open_connect(&channel, None).unwrap();
    assert!(receive(&mut state, &p).is_ok());
}

#[test]
fn queue_of_an_existing_account_runs_in_order() {
    let mut state = state_with_open_channel();
    let p = packet(
        "addr1",
        vec![transfer("uatom", 100, "bob"), call("contract"), transfer("uosmo", 5, "carol")],
        vec![coin("uatom", 100), coin("uosmo", 5)],
    );
    let response = ibc_packet_receive(&mut state, &p);
    assert_eq!(response.account, Some(AccountStatus::Existing { address: s("account-a") }));
    assert_eq!(
        response.messages,
        vec![
            SubMessage::Mint { coin: coin("ics999/channel-0/uatom", 100), recipient: s("bob") },
            SubMessage::Execute {
                target: s("contract"),
                payload: vec![1, 2, 3],
                funds: vec![coin("ujuno", 4)],
            },
            SubMessage::Mint { coin: coin("ics999/channel-0/uosmo", 5), recipient: s("carol") },
        ]
    );
    assert_eq!(
        response.ack,
        Ack::Results(vec![
            ActionResult::Transfer { coin: coin("ics999/channel-0/uatom", 100) },
            ActionResult::Execute,
            ActionResult::Transfer { coin: coin("ics999/channel-0/uosmo", 5) },
        ])
    );
    assert_eq!(state.traces.export().len(), 2);
    assert_eq!(state.factory.export(), vec![]);
}

#[test]
fn first_packet_of_a_controller_requests_its_account() {
    let mut state = state_with_open_channel();
    let p = packet("addr2", vec![call("contract")], vec![]);
    let receipt = receive(&mut state, &p).unwrap();
    match receipt.account {
        AccountStatus::Requested { id, salt, address } => {
            assert_eq!(id, 1);
            assert_eq!(salt, account_salt(&s("channel-0"), &s("addr2")));
            assert_eq!(address.len(), 32);
        },
        other => panic!("unexpected {:?}", other),
    }
    assert_eq!(receipt.messages.len(), 1);
    assert_eq!(state.factory.pending_request(1), Some((s("channel-0"), s("addr2"))));
    assert_eq!(state.factory.next_request_id(), 2);
}

#[test]
fn failed_account_request_fails_the_packet() {
    let mut state = state_with_open_channel();
    let p = packet(&"a".repeat(60), vec![transfer("uatom", 100, "bob")], vec![coin("uatom", 100)]);
    let response = ibc_packet_receive(&mut state, &p);
    assert_eq!(
        failed(&response),
        &Error::Instantiate2Address(AddressError::InvalidSaltLength)
    );
    assert_eq!(state.traces.export(), vec![]);
    assert_eq!(state.factory.export(), vec![]);
}

#[test]
fn one_failing_action_rolls_the_whole_packet_back() {
    let mut state = state_with_open_channel();
    let p = packet(
        "addr2",
        vec![
            transfer("uatom", 100, "bob"),
            call("contract"),
            transfer("ics999/channel-0/never", 5, "carol"),
            transfer("uosmo", 1, "dave"),
        ],
        vec![coin("uatom", 100), coin("ics999/channel-0/never", 5), coin("uosmo", 1)],
    );
    let response = ibc_packet_receive(&mut state, &p);
    assert_eq!(
        response,
        ReceiveResponse {
            ack: Ack::Failed(Error::TraceNotFound { denom: s("ics999/channel-0/never") }),
            account: None,
            messages: vec![],
        }
    );
    assert_eq!(state.traces.export(), vec![]);
    assert_eq!(state.traces.trace(&s("ics999/channel-0/uatom")), None);
    assert_eq!(state.factory.export(), vec![]);
    assert_eq!(state.factory.next_request_id(), 1);
    assert_eq!(state.accounts.len(), 1);
}

#[test]
fn transfer_needs_exactly_its_declared_coin() {
    let mut state = state_with_open_channel();
    let p = packet("addr1", vec![transfer("uatom", 100, "bob")], vec![coin("uatom", 99)]);
    assert_eq!(
        receive(&mut state, &p),
        Err(Error::FundsMismatch {
            actual: Coins { coins: vec![coin("uatom", 99)] },
            expected: Coins { coins: vec![coin("uatom", 100)] },
        })
    );
    let p = packet("addr1", vec![transfer("uatom", 100, "bob")], vec![coin("uosmo", 100)]);
    assert_eq!(
        receive(&mut state, &p),
        Err(Error::FundsMismatch {
            actual: Coins { coins: vec![coin("uosmo", 100)] },
            expected: Coins { coins: vec![coin("uatom", 100)] },
        })
    );
    let p = packet("addr1", vec![transfer("uatom", 100, "bob")], vec![]);
    assert_eq!(
        receive(&mut state, &p),
        Err(Error::FundsMismatch {
            actual: Coins { coins: vec![] },
            expected: Coins { coins: vec![coin("uatom", 100)] },
        })
    );
    assert_eq!(state.traces.export(), vec![]);
}

#[test]
fn declared_coins_must_all_be_used() {
    let mut state = state_with_open_channel();
    let p = packet(
        "addr1",
        vec![transfer("uatom", 100, "bob")],
        vec![coin("uatom", 100), coin("uosmo", 1), coin("ujuno", 2)],
    );
    assert_eq!(
        receive(&mut state, &p),
        Err(Error::FundsMismatch {
            actual: Coins { coins: vec![coin("uosmo", 1), coin("ujuno", 2)] },
            expected: Coins { coins: vec![] },
        })
    );
    assert_eq!(state.traces.export(), vec![]);
    let p = packet("addr1", vec![call("contract")], vec![coin("uatom", 1)]);
    assert_eq!(
        receive(&mut state, &p),
        Err(Error::FundsMismatch {
            actual: Coins { coins: vec![coin("uatom", 1)] },
            expected: Coins { coins: vec![] },
        })
    );
}

#[test]
fn voucher_sent_back_is_released() {
    let mut state = state_with_open_channel();
    let out = packet("addr1", vec![transfer("uatom", 100, "bob")], vec![coin("uatom", 100)]);
    receive(&mut state, &out).unwrap();
    let back = packet(
        "addr1",
        vec![transfer("ics999/channel-0/uatom", 40, "alice")],
        vec![coin("ics999/channel-0/uatom", 40)],
    );
    assert_eq!(
        receive(&mut state, &back),
        Ok(Receipt {
            account: AccountStatus::Existing { address: s("account-a") },
            messages: vec![SubMessage::Release {
                voucher: coin("ics999/channel-0/uatom", 40),
                coin: coin("uatom", 40),
                recipient: s("alice"),
            }],
        })
    );
    assert_eq!(state.traces.export().len(), 1);
}

#[test]
fn voucher_minted_earlier_in_the_queue_can_be_sent_back_later_in_it() {
    let mut state = state_with_open_channel();
    let p = packet(
        "addr1",
        vec![transfer("uatom", 100, "bob"), transfer("ics999/channel-0/uatom", 100, "alice")],
        vec![coin("uatom", 100), coin("ics999/channel-0/uatom", 100)],
    );
    let receipt = receive(&mut state, &p).unwrap();
    assert_eq!(
        receipt.messages[1],
        SubMessage::Release {
            voucher: coin("ics999/channel-0/uatom", 100),
            coin: coin("uatom", 100),
            recipient: s("alice"),
        }
    );
}

#[test]
fn voucher_of_another_channel_is_minted_anew() {
    let mut state = state_with_open_channel();
    let p = packet(
        "addr1",
        vec![transfer("ics999/channel-9/uatom", 1, "bob")],
        vec![coin("ics999/channel-9/uatom", 1)],
    );
    let receipt = receive(&mut state, &p).unwrap();
    assert_eq!(
        receipt.messages,
        vec![SubMessage::Mint {
            coin: coin("ics999/channel-0/ics999/channel-9/uatom", 1),
            recipient: s("bob"),
        }]
    );
    let traces = state.traces.export();
    assert_eq!(traces.len(), 1);
    assert!(!traces[0].origin_chain_is_source);
}

#[test]
fn step_leaves_the_cursor_on_a_call_and_moves_it_on_a_transfer() {
    let mut ledger = DenomTraceLedger::new();
    let funds = vec![coin("uatom", 1), coin("uosmo", 2)];
    let (message, next) = step(&mut ledger, &s("channel-0"), &call("contract"), &funds, 1).unwrap();
    assert_eq!(next, 1);
    assert_eq!(
        message,
        SubMessage::Execute {
            target: s("contract"),
            payload: vec![1, 2, 3],
            funds: vec![coin("ujuno", 4)],
        }
    );
    let (message, next) =
        step(&mut ledger, &s("channel-0"), &transfer("uosmo", 2, "bob"), &funds, 1).unwrap();
    assert_eq!(next, 2);
    assert_eq!(
        message,
        SubMessage::Mint { coin: coin("ics999/channel-0/uosmo", 2), recipient: s("bob") }
    );
    assert_eq!(
        step(&mut ledger, &s("channel-0"), &transfer("uosmo", 2, "bob"), &funds, 2),
        Err(Error::FundsMismatch {
            actual: Coins { coins: vec![] },
            expected: Coins { coins: vec![coin("uosmo", 2)] },
        })
    );
}

#[test]
fn run_queue_keeps_the_ledger_on_failure() {
    let mut ledger = DenomTraceLedger::new();
    ledger.mint(&s("channel-0"), &s("uatom"), 1).unwrap();
    let actions = vec![transfer("uosmo", 2, "bob"), transfer("ujuno", 3, "bob")];
    let funds = vec![coin("uosmo", 2), coin("ujuno", 4)];
    assert_eq!(
        run_queue(&mut ledger, &s("channel-0"), &actions, &funds),
        Err(Error::FundsMismatch {
            actual: Coins { coins: vec![coin("ujuno", 4)] },
            expected: Coins { coins: vec![coin("ujuno", 3)] },
        })
    );
    assert_eq!(ledger.export().len(), 1);
    let funds = vec![coin("uosmo", 2), coin("ujuno", 3)];
    assert_eq!(run_queue(&mut ledger, &s("channel-0"), &actions, &funds).unwrap().len(), 2);
    assert_eq!(ledger.export().len(), 3);
    assert_eq!(run_queue(&mut ledger, &s("channel-0"), &vec![], &vec![]), Ok(vec![]));
}

#[test]
fn results_follow_the_messages() {
    let messages = vec![
        SubMessage::Release {
            voucher: coin("ics999/channel-0/uatom", 40),
            coin: coin("uatom", 40),
            recipient: s("alice"),
        },
        SubMessage::Execute { target: s("c"), payload: vec![], funds: vec![] },
        SubMessage::Mint { coin: coin("ics999/channel-0/uosmo", 5), recipient: s("carol") },
    ];
    assert_eq!(
        results_of(&messages),
        vec![
            ActionResult::Transfer { coin: coin("uatom", 40) },
            ActionResult::Execute,
            ActionResult::Transfer { coin: coin("ics999/channel-0/uosmo", 5) },
        ]
    );
    assert_eq!(results_of(&vec![]), vec![]);
}
