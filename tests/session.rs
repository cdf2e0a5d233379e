use bhwi::apdu::ApduError;
use bhwi::ledger::{DerivationPath, Network};
use bhwi::merkle::MerkleTree;
use bhwi::store::{DelegatedStore, StoreError};
use bhwi::{LedgerCommand, LedgerError, LedgerInterpreter, LedgerResponse};

fn started(command: LedgerCommand) -> LedgerInterpreter {
    let mut it = LedgerInterpreter::default();
    it.start(command);
    it
}

fn all_commands() -> Vec<LedgerCommand> {
    vec![
        LedgerCommand::OpenApp(Network::Bitcoin),
        LedgerCommand::GetMasterFingerprint,
        LedgerCommand::GetXpub { path: DerivationPath { children: vec![0x8000_0054] }, display: false },
    ]
}

#[test]
fn start_returns_first_frame() {
    let mut it = LedgerInterpreter::default();
    let frame = it.start(LedgerCommand::GetMasterFingerprint);
    assert_eq!(frame.encode(), vec![0xE1, 0x05, 0x00, 0x01, 0x00]);
}

#[test]
fn end_right_after_start_fails() {
    for command in all_commands() {
        let it = started(command);
        assert!(matches!(it.end(), Err(LedgerError::NoErrorOrResult)));
    }
}

#[test]
fn end_of_new_session_fails() {
    assert!(matches!(LedgerInterpreter::default().end(), Err(LedgerError::NoErrorOrResult)));
}

#[test]
fn short_response_is_malformed_and_session_keeps_running() {
    let mut it = started(LedgerCommand::GetMasterFingerprint);
    assert!(matches!(it.exchange(vec![0x90]), Err(LedgerError::Apdu(ApduError::Malformed))));
    assert!(matches!(it.exchange(vec![0xAA, 0xBB, 0xCC, 0xDD, 0x90, 0x00]), Ok(None)));
    assert!(matches!(it.end(), Ok(LedgerResponse::MasterFingerprint(_))));
}

#[test]
fn fingerprint_ignores_extra_bytes() {
    let mut it = started(LedgerCommand::GetMasterFingerprint);
    assert!(matches!(it.exchange(vec![0xAA, 0xBB, 0xCC, 0xDD, 0x01, 0x02, 0x90, 0x00]), Ok(None)));
    match it.end() {
        Ok(LedgerResponse::MasterFingerprint(fp)) => assert_eq!(fp.bytes, [0xAA, 0xBB, 0xCC, 0xDD]),
        other => panic!("unexpected {:?}", other),
    }
}

#[test]
fn short_fingerprint_is_unexpected_result() {
    let mut it = started(LedgerCommand::GetMasterFingerprint);
    match it.exchange(vec![0xAA, 0xBB, 0xCC, 0x90, 0x00]) {
        Err(LedgerError::UnexpectedResult(raw)) => assert_eq!(raw, vec![0xAA, 0xBB, 0xCC]),
        other => panic!("unexpected {:?}", other),
    }
    assert!(matches!(it.end(), Err(LedgerError::NoErrorOrResult)));
}

#[test]
fn open_app_cla_not_supported_is_done() {
    let mut it = started(LedgerCommand::OpenApp(Network::Testnet));
    assert!(matches!(it.exchange(vec![0x6E, 0x00]), Ok(None)));
    assert!(matches!(it.end(), Ok(LedgerResponse::TaskDone)));
}

#[test]
fn open_app_ok_is_done() {
    let mut it = started(LedgerCommand::OpenApp(Network::Bitcoin));
    assert!(matches!(it.exchange(vec![0x90, 0x00]), Ok(None)));
    assert!(matches!(it.end(), Ok(LedgerResponse::TaskDone)));
}

#[test]
fn open_app_other_status_is_unexpected() {
    let mut it = started(LedgerCommand::OpenApp(Network::Bitcoin));
    match it.exchange(vec![0x69, 0x85]) {
        Err(LedgerError::UnexpectedResult(raw)) => assert!(raw.is_empty()),
        other => panic!("unexpected {:?}", other),
    }
}

#[test]
fn interrupted_without_store_fails() {
    let mut it = started(LedgerCommand::GetMasterFingerprint);
    assert!(matches!(it.exchange(vec![0x32, 0xE0, 0x00]), Err(LedgerError::Interrupted)));
    assert!(matches!(it.end(), Err(LedgerError::NoErrorOrResult)));
}

#[test]
fn interrupted_with_store_continues() {
    let tree = MerkleTree::new(vec![b"x".to_vec(), b"y".to_vec(), b"z".to_vec()]);
    let root = tree.root();
    let mut store = DelegatedStore::new();
    store.add_tree(tree);
    let mut it = LedgerInterpreter::default();
    it.start_with_store(LedgerCommand::GetMasterFingerprint, store);
    let mut resp = vec![0x10];
    resp.extend_from_slice(&root);
    resp.extend_from_slice(&2u64.to_be_bytes());
    resp.extend_from_slice(&[0xE0, 0x00]);
    let frame = it.exchange(resp).unwrap().unwrap();
    assert_eq!((frame.cla, frame.ins, frame.p1, frame.p2), (0xF8, 0x01, 0x00, 0x01));
    assert_eq!(frame.data[0], 1);
    assert_eq!(frame.data[33..].to_vec(), b"z".to_vec());
    let frame = it.exchange(vec![0x32, 0xE0, 0x00]).unwrap().unwrap();
    assert!(frame.data.is_empty());
    assert!(matches!(it.exchange(vec![0x11, 0xE0, 0x00]), Err(LedgerError::Store(StoreError::Malformed))));
    assert!(matches!(it.exchange(vec![1, 2, 3, 4, 0x90, 0x00]), Ok(None)));
    assert!(matches!(it.end(), Ok(LedgerResponse::MasterFingerprint(_))));
}

#[test]
fn xpub_response_parses() {
    let text = b"xpub661MyMwAqRbcFtXgS5sYJABqqG9YLmC4Q1Rdap9gSE8NqtwybGhePY2gZ29ESFjqJoCu1Rupje8YtGqsefD265TMg7usUDFdp6W1EGMcet8";
    let mut it = started(LedgerCommand::GetXpub { path: DerivationPath { children: vec![] }, display: false });
    let mut resp = text.to_vec();
    resp.extend_from_slice(&[0x90, 0x00]);
    assert!(matches!(it.exchange(resp), Ok(None)));
    match it.end() {
        Ok(LedgerResponse::Xpub(x)) => assert_eq!(x.to_string().as_bytes(), &text[..]),
        other => panic!("unexpected {:?}", other),
    }
}

#[test]
fn xpub_garbage_is_unexpected_result() {
    let mut it = started(LedgerCommand::GetXpub { path: DerivationPath { children: vec![1] }, display: true });
    match it.exchange(vec![b'x', b'p', 0x90, 0x00]) {
        Err(LedgerError::UnexpectedResult(raw)) => assert_eq!(raw, b"xp".to_vec()),
        other => panic!("unexpected {:?}", other),
    }
}

#[test]
fn exchange_after_finish_does_nothing() {
    let mut it = started(LedgerCommand::OpenApp(Network::Signet));
    assert!(matches!(it.exchange(vec![0x90, 0x00]), Ok(None)));
    assert!(matches!(it.exchange(vec![0x69, 0x85]), Ok(None)));
    assert!(matches!(it.end(), Ok(LedgerResponse::TaskDone)));
}

#[test]
fn error_conversions() {
    assert!(matches!(LedgerError::from(ApduError::Malformed), LedgerError::Apdu(ApduError::Malformed)));
    assert!(matches!(
        LedgerError::from(StoreError::TreeNotFound),
        LedgerError::Store(StoreError::TreeNotFound)
    ));
}
