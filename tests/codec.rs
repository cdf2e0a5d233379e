use bhwi::apdu::{ApduCommand, ApduError, ApduResponse, StatusWord};
use bhwi::command::{continue_interrupted, get_extended_pubkey, get_master_fingerprint, open_app};
use bhwi::ledger::{DerivationPath, Network};

#[test]
fn encode_command_frame() {
    let cmd = ApduCommand { cla: 0xE1, ins: 0x05, p1: 0x00, p2: 0x01, data: vec![0xAA, 0xBB] };
    assert_eq!(cmd.encode(), vec![0xE1, 0x05, 0x00, 0x01, 0x02, 0xAA, 0xBB]);
}

#[test]
fn decode_splits_payload_and_status_word() {
    let res = ApduResponse::decode(vec![0x01, 0x02, 0x90, 0x00]).unwrap();
    assert_eq!(res.data, vec![0x01, 0x02]);
    assert_eq!(res.status_word, StatusWord::OK);
}

#[test]
fn decode_known_status_words() {
    let res = ApduResponse::decode(vec![0xE0, 0x00]).unwrap();
    assert_eq!(res.status_word, StatusWord::InterruptedExecution);
    assert!(res.data.is_empty());
    let res = ApduResponse::decode(vec![0x6E, 0x00]).unwrap();
    assert_eq!(res.status_word, StatusWord::ClaNotSupported);
}

#[test]
fn decode_unknown_status_word_keeps_code() {
    let res = ApduResponse::decode(vec![0x07, 0x69, 0x85]).unwrap();
    assert_eq!(res.status_word, StatusWord::Unknown(0x6985));
    assert_eq!(res.data, vec![0x07]);
}

#[test]
fn decode_short_buffer_is_malformed() {
    assert!(matches!(ApduResponse::decode(vec![]), Err(ApduError::Malformed)));
    assert!(matches!(ApduResponse::decode(vec![0x90]), Err(ApduError::Malformed)));
}

#[test]
fn open_app_frames() {
    let main = open_app(Network::Bitcoin);
    assert_eq!((main.cla, main.ins, main.p1, main.p2), (0xE0, 0xD8, 0x00, 0x00));
    assert_eq!(main.data, b"Bitcoin".to_vec());
    let test = open_app(Network::Testnet);
    assert_eq!(test.data, b"Bitcoin Test".to_vec());
    assert_eq!(open_app(Network::Regtest).data, b"Bitcoin Test".to_vec());
}

#[test]
fn master_fingerprint_frame() {
    let f = get_master_fingerprint();
    assert_eq!(f.encode(), vec![0xE1, 0x05, 0x00, 0x01, 0x00]);
}

#[test]
fn extended_pubkey_frame() {
    let path = DerivationPath { children: vec![0x8000_002C, 0x8000_0000, 0x8000_0000, 0, 7] };
    let f = get_extended_pubkey(&path, true);
    assert_eq!((f.cla, f.ins, f.p1, f.p2), (0xE1, 0x00, 0x00, 0x01));
    assert_eq!(
        f.data,
        vec![
            0x01, 0x05, 0x80, 0x00, 0x00, 0x2C, 0x80, 0x00, 0x00, 0x00, 0x80, 0x00, 0x00, 0x00,
            0x00, 0x00, 0x00, 0x00, 0x00, 0x00, 0x00, 0x07,
        ]
    );
    let g = get_extended_pubkey(&DerivationPath { children: vec![] }, false);
    assert_eq!(g.data, vec![0x00, 0x00]);
}

#[test]
fn continuation_frame() {
    let f = continue_interrupted(vec![0x01, 0x02]);
    assert_eq!(f.encode(), vec![0xF8, 0x01, 0x00, 0x01, 0x02, 0x01, 0x02]);
}
