use cosmwasm_std::{instantiate2_address, CanonicalAddr};
use cw_utils::ParseReplyError;
use ics999_core::error::{AddressError, Error};
use ics999_core::factory::{
    account_salt, AccountStatus, FactoryBridge, PendingFactoryRequest,
};
use ics999_core::registry::{AccountEntry, AccountRegistry};

fn s(text: &str) -> String {
    text.to_string()
}

fn bridge() -> FactoryBridge {
    FactoryBridge::new(vec![0x13u8; 32], vec![0x99u8; 20])
}

fn reply_data(address: &str) -> Vec<u8> {
    let mut data = vec![0x0au8, address.len() as u8];
    data.extend_from_slice(address.as_bytes());
    data
}

#[test]
fn salt_is_length_channel_controller() {
    assert_eq!(account_salt(&s("ab"), &s("cde")), vec![2, b'a', b'b', b'c', b'd', b'e']);
    assert_eq!(account_salt(&s(""), &s("")), vec![0]);
    assert_eq!(account_salt(&s("é"), &s("x")), vec![2, 0xc3, 0xa9, b'x']);
    let long = "c".repeat(300);
    let salt = account_salt(&long, &s("x"));
    assert_eq!(salt.len(), 302);
    assert_eq!(salt[0], 255);
    assert_eq!(account_salt(&"c".repeat(255), &s(""))[0], 255);
    assert_eq!(account_salt(&"c".repeat(254), &s(""))[0], 254);
}

#[test]
fn salt_tells_pairs_apart() {
    assert_ne!(account_salt(&s("ab"), &s("c")), account_salt(&s("a"), &s("bc")));
    assert_ne!(account_salt(&s(""), &s("abc")), account_salt(&s("abc"), &s("")));
}

#[test]
fn ensure_account_files_a_request_with_the_derived_address() {
    let mut factory = bridge();
    let registry = AccountRegistry::new();
    let status = factory.ensure_account(&registry, &s("channel-0"), &s("addr1")).unwrap();
    let salt = account_salt(&s("channel-0"), &s("addr1"));
    let expected =
        instantiate2_address(&[0x13u8; 32], &CanonicalAddr::from(vec![0x99u8; 20]), &salt)
            .unwrap();
    assert_eq!(
        status,
        AccountStatus::Requested { id: 1, salt: salt.clone(), address: expected.to_vec() }
    );
    assert_eq!(expected.len(), 32);
    assert_ne!(expected.to_vec(), salt);
    assert_eq!(factory.pending_request(1), Some((s("channel-0"), s("addr1"))));
    assert_eq!(factory.pending_request(2), None);
    assert_eq!(factory.next_request_id(), 2);
}

#[test]
fn requests_are_numbered_in_turn() {
    let mut factory = bridge();
    let registry = AccountRegistry::new();
    let first = factory.ensure_account(&registry, &s("channel-0"), &s("addr1")).unwrap();
    let second = factory.ensure_account(&registry, &s("channel-0"), &s("addr2")).unwrap();
    match (first, second) {
        (
            AccountStatus::Requested { id: a, address: x, .. },
            AccountStatus::Requested { id: b, address: y, .. },
        ) => {
            assert_eq!(a, 1);
            assert_eq!(b, 2);
            assert_ne!(x, y);
        },
        other => panic!("unexpected {:?}", other),
    }
    assert_eq!(
        factory.export(),
        vec![
            PendingFactoryRequest { id: 1, channel_id: s("channel-0"), controller: s("addr1") },
            PendingFactoryRequest { id: 2, channel_id: s("channel-0"), controller: s("addr2") },
        ]
    );
}

#[test]
fn ensure_account_finds_the_registered_account() {
    let mut factory = bridge();
    let mut registry = AccountRegistry::new();
    registry.register(&s("channel-0"), &s("addr1"), s("account-a")).unwrap();
    assert_eq!(
        factory.ensure_account(&registry, &s("channel-0"), &s("addr1")),
        Ok(AccountStatus::Existing { address: s("account-a") })
    );
    assert_eq!(factory.export(), vec![]);
    assert_eq!(factory.next_request_id(), 1);
}

#[test]
fn ensure_account_fails_on_a_bad_checksum() {
    let mut factory = FactoryBridge::new(vec![1u8; 31], vec![0x99u8; 20]);
    let registry = AccountRegistry::new();
    assert_eq!(
        factory.ensure_account(&registry, &s("channel-0"), &s("addr1")),
        Err(Error::Instantiate2Address(AddressError::InvalidChecksumLength))
    );
    assert_eq!(factory.export(), vec![]);
    assert_eq!(factory.next_request_id(), 1);
}

#[test]
fn ensure_account_fails_on_a_salt_over_64_bytes() {
    let mut factory = bridge();
    let registry = AccountRegistry::new();
    let controller = "a".repeat(54);
    assert_eq!(account_salt(&s("channel-0"), &controller).len(), 64);
    assert!(factory.ensure_account(&registry, &s("channel-0"), &controller).is_ok());
    let controller = "a".repeat(55);
    assert_eq!(
        factory.ensure_account(&registry, &s("channel-0"), &controller),
        Err(Error::Instantiate2Address(AddressError::InvalidSaltLength))
    );
    assert_eq!(factory.export().len(), 1);
}

#[test]
fn request_passes_the_fault_of_the_derivation_on() {
    let mut factory = bridge();
    assert_eq!(
        factory.request(
            &s("channel-0"),
            &s("addr1"),
            vec![1, 2],
            Err(AddressError::InvalidSaltLength)
        ),
        Err(Error::Instantiate2Address(AddressError::InvalidSaltLength))
    );
    assert_eq!(
        factory.request(&s("channel-0"), &s("addr1"), vec![1, 2], Ok(vec![9, 9])),
        Ok(AccountStatus::Requested { id: 1, salt: vec![1, 2], address: vec![9, 9] })
    );
}

#[test]
fn request_fails_when_the_numbers_run_out() {
    let mut factory = FactoryBridge::resume(vec![0x13u8; 32], vec![0x99u8; 20], u64::MAX);
    let registry = AccountRegistry::new();
    match factory.ensure_account(&registry, &s("channel-0"), &s("addr1")) {
        Err(Error::Overflow(_)) => {},
        other => panic!("unexpected {:?}", other),
    }
    assert_eq!(factory.export(), vec![]);
    assert_eq!(factory.next_request_id(), u64::MAX);
    let mut factory = FactoryBridge::resume(vec![0x13u8; 32], vec![0x99u8; 20], u64::MAX - 1);
    match factory.ensure_account(&registry, &s("channel-0"), &s("addr1")) {
        Ok(AccountStatus::Requested { id, .. }) => assert_eq!(id, u64::MAX - 1),
        other => panic!("unexpected {:?}", other),
    }
    assert_eq!(factory.next_request_id(), u64::MAX);
}

#[test]
fn reply_registers_the_account_and_settles_the_request() {
    let mut factory = bridge();
    let mut registry = AccountRegistry::new();
    factory.ensure_account(&registry, &s("channel-0"), &s("addr1")).unwrap();
    let data = reply_data("cosmos1account");
    assert_eq!(
        factory.on_factory_reply(&mut registry, 1, Some(&data)),
        Ok(AccountEntry {
            channel_id: s("channel-0"),
            controller: s("addr1"),
            address: s("cosmos1account"),
        })
    );
    assert_eq!(
        registry.lookup_by_controller(&s("channel-0"), &s("addr1")),
        Some(s("cosmos1account"))
    );
    assert_eq!(factory.pending_request(1), None);
    assert_eq!(factory.next_request_id(), 2);
}

#[test]
fn reply_reads_the_address_before_further_data() {
    let mut factory = bridge();
    let mut registry = AccountRegistry::new();
    factory.ensure_account(&registry, &s("channel-0"), &s("addr1")).unwrap();
    let mut data = reply_data("wasm1xyz");
    data.extend_from_slice(&[0x12, 0x02, 0xaa, 0xbb]);
    assert_eq!(
        factory.on_factory_reply(&mut registry, 1, Some(&data)).unwrap().address,
        "wasm1xyz"
    );
}

#[test]
fn reply_without_data_fails() {
    let mut factory = bridge();
    let mut registry = AccountRegistry::new();
    factory.ensure_account(&registry, &s("channel-0"), &s("addr1")).unwrap();
    assert_eq!(
        factory.on_factory_reply(&mut registry, 1, None),
        Err(Error::FactoryResponseDataMissing)
    );
    assert_eq!(registry.len(), 0);
    assert_eq!(factory.pending_request(1), Some((s("channel-0"), s("addr1"))));
}

#[test]
fn reply_with_broken_data_fails() {
    let mut factory = bridge();
    let mut registry = AccountRegistry::new();
    factory.ensure_account(&registry, &s("channel-0"), &s("addr1")).unwrap();
    match factory.on_factory_reply(&mut registry, 1, Some(&vec![0x0a, 0x05, b'a'])) {
        Err(Error::ParseReply(ParseReplyError::ParseFailure(_))) => {},
        other => panic!("unexpected {:?}", other),
    }
    match factory.on_factory_reply(&mut registry, 1, Some(&vec![0x0a, 0x02, 0xff, 0xfe])) {
        Err(Error::ParseReply(ParseReplyError::BrokenUtf8(_))) => {},
        other => panic!("unexpected {:?}", other),
    }
    assert_eq!(registry.len(), 0);
    assert_eq!(factory.export().len(), 1);
}

#[test]
fn reply_to_an_unknown_request_fails() {
    let mut factory = bridge();
    let mut registry = AccountRegistry::new();
    let data = reply_data("cosmos1account");
    match factory.on_factory_reply(&mut registry, 1, Some(&data)) {
        Err(Error::Std(cosmwasm_std::StdError::NotFound { kind, .. })) => {
            assert_eq!(kind, "PendingFactoryRequest")
        },
        other => panic!("unexpected {:?}", other),
    }
    match factory.on_factory_reply(&mut registry, 1, None) {
        Err(Error::Std(_)) => {},
        other => panic!("unexpected {:?}", other),
    }
    assert_eq!(registry.len(), 0);
}

#[test]
fn second_reply_for_a_pair_is_rejected_and_keeps_the_first_address() {
    let mut factory = bridge();
    let mut registry = AccountRegistry::new();
    factory.ensure_account(&registry, &s("channel-0"), &s("addr1")).unwrap();
    factory.ensure_account(&registry, &s("channel-0"), &s("addr1")).unwrap();
    assert_eq!(factory.export().len(), 2);
    factory.on_factory_reply(&mut registry, 1, Some(&reply_data("first"))).unwrap();
    assert_eq!(
        factory.on_factory_reply(&mut registry, 2, Some(&reply_data("second"))),
        Err(Error::AccountExists { channel_id: s("channel-0"), controller: s("addr1") })
    );
    assert_eq!(registry.lookup_by_controller(&s("channel-0"), &s("addr1")), Some(s("first")));
    assert_eq!(registry.len(), 1);
    assert_eq!(factory.pending_request(2), Some((s("channel-0"), s("addr1"))));
    match factory.on_factory_reply(&mut registry, 1, Some(&reply_data("again"))) {
        Err(Error::Std(_)) => {},
        other => panic!("unexpected {:?}", other),
    }
}

#[test]
fn complete_takes_what_reading_the_reply_gave() {
    let mut factory = bridge();
    let mut registry = AccountRegistry::new();
    factory.ensure_account(&registry, &s("channel-0"), &s("addr1")).unwrap();
    assert_eq!(
        factory.complete(
            &mut registry,
            1,
            Err(ParseReplyError::ParseFailure(s("no")))
        ),
        Err(Error::ParseReply(ParseReplyError::ParseFailure(s("no"))))
    );
    assert_eq!(
        factory.complete(&mut registry, 1, Ok(s("account-a"))),
        Ok(AccountEntry {
            channel_id: s("channel-0"),
            controller: s("addr1"),
            address: s("account-a"),
        })
    );
    assert_eq!(factory.export(), vec![]);
}

#[test]
fn restore_puts_requests_back() {
    let mut factory = FactoryBridge::resume(vec![0x13u8; 32], vec![0x99u8; 20], 10);
    let request = |id: u64| PendingFactoryRequest {
        id,
        channel_id: s("channel-0"),
        controller: s("addr1"),
    };
    assert!(factory.restore(request(7)));
    assert!(factory.restore(request(3)));
    assert!(!factory.restore(request(7)));
    assert!(!factory.restore(request(10)));
    assert!(!factory.restore(request(11)));
    assert_eq!(factory.export(), vec![request(7), request(3)]);
    assert_eq!(factory.next_request_id(), 10);
    assert_eq!(factory.code_checksum(), vec![0x13u8; 32]);
    assert_eq!(factory.creator_address(), vec![0x99u8; 20]);
    let copy = factory.duplicate();
    assert_eq!(copy.export(), factory.export());
    assert_eq!(copy.next_request_id(), 10);
}

#[test]
fn reply_that_names_no_address_carries_no_instantiate_data() {
    let mut factory = bridge();
    let mut registry = AccountRegistry::new();
    factory.ensure_account(&registry, &s("channel-0"), &s("addr1")).unwrap();
    assert_eq!(
        factory.on_factory_reply(&mut registry, 1, Some(&vec![])),
        Err(Error::FactoryResponseDataMissing)
    );
    assert_eq!(
        factory.on_factory_reply(&mut registry, 1, Some(&vec![0x0a, 0x00])),
        Err(Error::FactoryResponseDataMissing)
    );
    assert_eq!(
        factory.complete(&mut registry, 1, Ok(s(""))),
        Err(Error::FactoryResponseDataMissing)
    );
    assert_eq!(registry.len(), 0);
    assert_eq!(registry.lookup_by_controller(&s("channel-0"), &s("addr1")), None);
    assert_eq!(factory.pending_request(1), Some((s("channel-0"), s("addr1"))));
    assert!(factory.on_factory_reply(&mut registry, 1, Some(&reply_data("a"))).is_ok());
}

#[test]
fn unknown_request_is_told_before_an_empty_address() {
    let mut factory = bridge();
    let mut registry = AccountRegistry::new();
    match factory.complete(&mut registry, 9, Ok(s(""))) {
        Err(Error::Std(_)) => {},
        other => panic!("unexpected {:?}", other),
    }
}
