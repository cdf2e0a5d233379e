//! Encoders from domain commands to the first command frame of a session.
use vstd::prelude::*;
use crate::apdu::ApduCommand;
use crate::ledger::{DerivationPath, LedgerCommand, Network};

verus! {

/// Class of the device's dashboard commands (opening an application).
pub const CLA_DEFAULT: u8 = 0xE0;

/// Class of the Bitcoin application's commands.
pub const CLA_BITCOIN: u8 = 0xE1;

/// Class of the framework commands (continuing an interrupted command).
pub const CLA_FRAMEWORK: u8 = 0xF8;

pub const INS_GET_EXTENDED_PUBKEY: u8 = 0x00;

pub const INS_GET_MASTER_FINGERPRINT: u8 = 0x05;

pub const INS_OPEN_APP: u8 = 0xD8;

pub const INS_CONTINUE_INTERRUPTED: u8 = 0x01;

/// Second parameter byte of the Bitcoin application's commands.
pub const PROTOCOL_VERSION: u8 = 0x01;

/// Longest derivation path whose request fits in one frame.
pub const MAX_PATH_LEN: usize = 63;

/// Name of the on-device application for a network.
pub open spec fn app_name(network: Network) -> Seq<u8> {
    match network {
        Network::Bitcoin => seq![0x42u8, 0x69, 0x74, 0x63, 0x6f, 0x69, 0x6e],
        _ => seq![0x42u8, 0x69, 0x74, 0x63, 0x6f, 0x69, 0x6e, 0x20, 0x54, 0x65, 0x73, 0x74],
    }
}

/// The four big-endian bytes of `x`.
pub open spec fn u32_be(x: u32) -> Seq<u8> {
    seq![(x >> 24u32) as u8, (x >> 16u32) as u8, (x >> 8u32) as u8, x as u8]
}

/// Each child number of the path as four big-endian bytes, in order.
pub open spec fn path_bytes(children: Seq<u32>) -> Seq<u8>
    decreases children.len(),
{
    if children.len() == 0 {
        seq![]
    } else {
        path_bytes(children.drop_last()) + u32_be(children.last())
    }
}

/// Payload of the extended-public-key request: `display | n | children`.
pub open spec fn xpub_payload(children: Seq<u32>, display: bool) -> Seq<u8> {
    seq![if display { 1u8 } else { 0u8 }, children.len() as u8] + path_bytes(children)
}

/// `frame` is the first frame that `command` sends.
pub open spec fn is_first_frame(command: LedgerCommand, frame: ApduCommand) -> bool {
    match command {
        LedgerCommand::OpenApp(network) => frame.is_frame(
            CLA_DEFAULT,
            INS_OPEN_APP,
            0,
            0,
            app_name(network),
        ),
        LedgerCommand::GetMasterFingerprint => frame.is_frame(
            CLA_BITCOIN,
            INS_GET_MASTER_FINGERPRINT,
            0,
            PROTOCOL_VERSION,
            seq![],
        ),
        LedgerCommand::GetXpub { path, display } => frame.is_frame(
            CLA_BITCOIN,
            INS_GET_EXTENDED_PUBKEY,
            0,
            PROTOCOL_VERSION,
            xpub_payload(path.children@, display),
        ),
    }
}

pub fn open_app(network: Network) -> (r: ApduCommand)
    ensures
        r.is_frame(CLA_DEFAULT, INS_OPEN_APP, 0, 0, app_name(network)),
{
    let data = match network {
        Network::Bitcoin => vec![0x42u8, 0x69, 0x74, 0x63, 0x6f, 0x69, 0x6e],
        _ => vec![0x42u8, 0x69, 0x74, 0x63, 0x6f, 0x69, 0x6e, 0x20, 0x54, 0x65, 0x73, 0x74],
    };
    assert(data@ =~= app_name(network));
    ApduCommand { cla: CLA_DEFAULT, ins: INS_OPEN_APP, p1: 0, p2: 0, data }
}

pub fn get_master_fingerprint() -> (r: ApduCommand)
    ensures
        r.is_frame(CLA_BITCOIN, INS_GET_MASTER_FINGERPRINT, 0, PROTOCOL_VERSION, seq![]),
{
    let data: Vec<u8> = Vec::new();
    assert(data@ =~= seq![]);
    ApduCommand {
        cla: CLA_BITCOIN,
        ins: INS_GET_MASTER_FINGERPRINT,
        p1: 0,
        p2: PROTOCOL_VERSION,
        data,
    }
}

pub fn get_extended_pubkey(path: &DerivationPath, display: bool) -> (r: ApduCommand)
    requires
        path.children@.len() <= MAX_PATH_LEN,
    ensures
        r.is_frame(
            CLA_BITCOIN,
            INS_GET_EXTENDED_PUBKEY,
            0,
            PROTOCOL_VERSION,
            xpub_payload(path.children@, display),
        ),
        r.data@.len() <= 255,
{
    let children = &path.children;
    let mut data: Vec<u8> = Vec::new();
    data.push(if display { 1u8 } else { 0u8 });
    data.push(children.len() as u8);
    let ghost head = data@;
    let mut i: usize = 0;
    while i < children.len()
        invariant
            i <= children@.len() <= MAX_PATH_LEN,
            data@ == head + path_bytes(children@.subrange(0, i as int)),
            head.len() == 2,
            data@.len() == 2 + 4 * i,
        decreases children@.len() - i,
    {
        let c = children[i];
        data.push((c >> 24u32) as u8);
        data.push((c >> 16u32) as u8);
        data.push((c >> 8u32) as u8);
        data.push(c as u8);
        i = i + 1;
        assert(children@.subrange(0, i as int).drop_last() =~= children@.subrange(0, i - 1));
        assert(data@ =~= head + path_bytes(children@.subrange(0, i as int)));
    }
    assert(children@.subrange(0, i as int) =~= children@);
    assert(data@ =~= xpub_payload(children@, display));
    ApduCommand {
        cla: CLA_BITCOIN,
        ins: INS_GET_EXTENDED_PUBKEY,
        p1: 0,
        p2: PROTOCOL_VERSION,
        data,
    }
}

/// The frame that carries the host's answer to a client command.
pub fn continue_interrupted(data: Vec<u8>) -> (r: ApduCommand)
    ensures
        r.is_frame(CLA_FRAMEWORK, INS_CONTINUE_INTERRUPTED, 0, PROTOCOL_VERSION, data@),
{
    ApduCommand {
        cla: CLA_FRAMEWORK,
        ins: INS_CONTINUE_INTERRUPTED,
        p1: 0,
        p2: PROTOCOL_VERSION,
        data,
    }
}

} // verus!
