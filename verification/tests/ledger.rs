use ics999_core::coin::{Coin, Coins};
use ics999_core::error::Error;
use ics999_core::ledger::{
    denom_is_voucher, denom_is_voucher_of, voucher_denom, DenomTrace, DenomTraceLedger,
};

fn s(text: &str) -> String {
    text.to_string()
}

fn coin(denom: &str, amount: u128) -> Coin {
    Coin { denom: s(denom), amount }
}

#[test]
fn voucher_denom_names_channel_and_origin() {
    assert_eq!(voucher_denom(&s("channel-0"), &s("uatom")), "ics999/channel-0/uatom");
    assert_eq!(voucher_denom(&s(""), &s("")), "ics999//");
    assert_eq!(
        voucher_denom(&s("channel-1"), &s("ics999/channel-7/uosmo")),
        "ics999/channel-1/ics999/channel-7/uosmo"
    );
}

#[test]
fn voucher_denoms_are_told_by_their_beginning() {
    assert!(denom_is_voucher(&s("ics999/channel-0/uatom")));
    assert!(denom_is_voucher(&s("ics999/")));
    assert!(!denom_is_voucher(&s("ics999")));
    assert!(!denom_is_voucher(&s("uatom")));
    assert!(!denom_is_voucher(&s("ibc/ics999/x")));
    assert!(denom_is_voucher_of(&s("channel-0"), &s("ics999/channel-0/uatom")));
    assert!(!denom_is_voucher_of(&s("channel-0"), &s("ics999/channel-01/uatom")));
    assert!(!denom_is_voucher_of(&s("channel-1"), &s("ics999/channel-0/uatom")));
    assert!(!denom_is_voucher_of(&s("channel-0"), &s("ics999/channel-0")));
    assert!(!denom_is_voucher_of(&s("channel-0"), &s("uatom")));
}

#[test]
fn mint_writes_the_trace_once() {
    let mut ledger = DenomTraceLedger::new();
    assert_eq!(ledger.trace(&s("ics999/channel-0/uatom")), None);
    assert_eq!(
        ledger.mint(&s("channel-0"), &s("uatom"), 250),
        Ok(coin("ics999/channel-0/uatom", 250))
    );
    let trace = DenomTrace {
        voucher_denom: s("ics999/channel-0/uatom"),
        origin_channel_id: s("channel-0"),
        origin_denom: s("uatom"),
        origin_chain_is_source: true,
    };
    assert_eq!(ledger.trace(&s("ics999/channel-0/uatom")), Some(trace.clone()));
    assert_eq!(
        ledger.mint(&s("channel-0"), &s("uatom"), 1),
        Ok(coin("ics999/channel-0/uatom", 1))
    );
    assert_eq!(ledger.export(), vec![trace]);
}

#[test]
fn voucher_of_a_voucher_is_not_at_home_on_the_sender() {
    let mut ledger = DenomTraceLedger::new();
    ledger.mint(&s("channel-1"), &s("ics999/channel-7/uosmo"), 5).unwrap();
    let trace = ledger.trace(&s("ics999/channel-1/ics999/channel-7/uosmo")).unwrap();
    assert!(!trace.origin_chain_is_source);
    assert_eq!(trace.origin_denom, "ics999/channel-7/uosmo");
    assert_eq!(trace.origin_channel_id, "channel-1");
}

#[test]
fn mint_then_unwrap_gives_back_amount_and_denom() {
    let mut ledger = DenomTraceLedger::new();
    let voucher = ledger.mint(&s("channel-0"), &s("uatom"), 12345).unwrap();
    assert_eq!(ledger.unwrap(&voucher.denom, voucher.amount), Ok(coin("uatom", 12345)));
    ledger.mint(&s("channel-3"), &s("uosmo"), 1).unwrap();
    ledger.mint(&s("channel-0"), &s("uatom"), 7).unwrap();
    assert_eq!(ledger.unwrap(&voucher.denom, voucher.amount), Ok(coin("uatom", 12345)));
    assert_eq!(
        ledger.unwrap(&s("ics999/channel-3/uosmo"), u128::MAX),
        Ok(coin("uosmo", u128::MAX))
    );
}

#[test]
fn unwrap_without_trace_fails() {
    let mut ledger = DenomTraceLedger::new();
    assert_eq!(
        ledger.unwrap(&s("ics999/channel-0/uatom"), 1),
        Err(Error::TraceNotFound { denom: s("ics999/channel-0/uatom") })
    );
    ledger.mint(&s("channel-0"), &s("uatom"), 1).unwrap();
    assert_eq!(
        ledger.unwrap(&s("ics999/channel-1/uatom"), 1),
        Err(Error::TraceNotFound { denom: s("ics999/channel-1/uatom") })
    );
    assert_eq!(ledger.unwrap(&s("uatom"), 1), Err(Error::TraceNotFound { denom: s("uatom") }));
}

#[test]
fn mint_refuses_a_denomination_that_stands_for_another_origin() {
    let mut ledger = DenomTraceLedger::new();
    ledger.mint(&s("a"), &s("b/c"), 1).unwrap();
    assert_eq!(
        ledger.mint(&s("a/b"), &s("c"), 1),
        Err(Error::TraceNotFound { denom: s("ics999/a/b/c") })
    );
    assert_eq!(ledger.unwrap(&s("ics999/a/b/c"), 3), Ok(coin("b/c", 3)));
    assert_eq!(ledger.export().len(), 1);
}

#[test]
fn duplicate_is_independent_of_its_source() {
    let mut ledger = DenomTraceLedger::new();
    ledger.mint(&s("channel-0"), &s("uatom"), 1).unwrap();
    ledger.mint(&s("channel-0"), &s("uosmo"), 1).unwrap();
    let mut copy = ledger.duplicate();
    assert_eq!(copy.export(), ledger.export());
    copy.mint(&s("channel-0"), &s("ujuno"), 1).unwrap();
    assert_eq!(copy.export().len(), 3);
    assert_eq!(ledger.export().len(), 2);
    assert_eq!(ledger.trace(&s("ics999/channel-0/ujuno")), None);
}

#[test]
fn export_is_ordered_by_voucher_denom() {
    let mut ledger = DenomTraceLedger::new();
    ledger.mint(&s("channel-1"), &s("b"), 1).unwrap();
    ledger.mint(&s("channel-0"), &s("z"), 1).unwrap();
    ledger.mint(&s("channel-0"), &s("a"), 1).unwrap();
    let denoms: Vec<String> = ledger.export().into_iter().map(|t| t.voucher_denom).collect();
    assert_eq!(
        denoms,
        vec![s("ics999/channel-0/a"), s("ics999/channel-0/z"), s("ics999/channel-1/b")]
    );
}

#[test]
fn coins_helpers() {
    assert_eq!(Coins::empty(), Coins { coins: vec![] });
    assert_eq!(Coins::one(&s("uatom"), 5), Coins { coins: vec![coin("uatom", 5)] });
    let list = vec![coin("a", 1), coin("b", 2), coin("c", 3)];
    assert_eq!(Coins::suffix(&list, 0).coins, list);
    assert_eq!(Coins::suffix(&list, 2).coins, vec![coin("c", 3)]);
    assert_eq!(Coins::suffix(&list, 3).coins, vec![]);
    assert_eq!(coin("a", 1).duplicate(), coin("a", 1));
}
