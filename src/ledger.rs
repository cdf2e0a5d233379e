//! Domain commands and responses, the error taxonomy, and the session
//! interpreter that drives one command from its first frame to its result.
use vstd::prelude::*;
use crate::apdu::{payload_in, status_in, ApduCommand, ApduError, ApduResponse, StatusWord};
use crate::command::{
    continue_interrupted, get_extended_pubkey, get_master_fingerprint, is_first_frame, open_app,
    CLA_FRAMEWORK, INS_CONTINUE_INTERRUPTED, MAX_PATH_LEN, PROTOCOL_VERSION,
};
use crate::store::{answer, DelegatedStore, StoreError};

verus! {

#[verifier::external_type_specification]
#[verifier::external_body]
pub struct ExXpub(bitcoin::bip32::Xpub);

/// Whether the bytes, read as text, are the serialisation of an extended public key.
pub uninterp spec fn xpub_text_valid(data: Seq<u8>) -> bool;

/// Relies on `bitcoin::bip32::Xpub::from_str` over the bytes read as UTF-8
/// (`String::from_utf8_lossy`): it succeeds exactly when the text is a valid
/// base58check extended public key, which depends on the bytes alone.
#[verifier::external_body]
fn parse_xpub(data: &Vec<u8>) -> (r: Option<bitcoin::bip32::Xpub>)
    ensures
        r is Some == xpub_text_valid(data@),
{
    <bitcoin::bip32::Xpub as std::str::FromStr>::from_str(&String::from_utf8_lossy(data)).ok()
}

/// The networks the device's Bitcoin applications serve.
#[derive(Clone, Copy, Debug, PartialEq, Eq, Structural)]
pub enum Network {
    Bitcoin,
    Testnet,
    Testnet4,
    Signet,
    Regtest,
}

/// A BIP-32 derivation path as raw child numbers (hardened ones have the top bit set).
#[derive(Clone, Debug)]
pub struct DerivationPath {
    pub children: Vec<u32>,
}

/// The 4-byte identifier of a master key.
#[derive(Clone, Copy, Debug, PartialEq, Eq)]
pub struct Fingerprint {
    pub bytes: [u8; 4],
}

#[derive(Debug)]
pub enum LedgerError {
    MissingCommandInfo(&'static str),
    NoErrorOrResult,
    Apdu(ApduError),
    Store(StoreError),
    Interrupted,
    UnexpectedResult(Vec<u8>),
    FailedToOpenApp(Vec<u8>),
}

impl From<ApduError> for LedgerError {
    fn from(value: ApduError) -> Self {
        LedgerError::Apdu(value)
    }
}

impl vstd::std_specs::convert::FromSpecImpl<ApduError> for LedgerError {
    open spec fn obeys_from_spec() -> bool {
        true
    }

    open spec fn from_spec(v: ApduError) -> LedgerError {
        LedgerError::Apdu(v)
    }
}

impl From<StoreError> for LedgerError {
    fn from(value: StoreError) -> Self {
        LedgerError::Store(value)
    }
}

impl vstd::std_specs::convert::FromSpecImpl<StoreError> for LedgerError {
    open spec fn obeys_from_spec() -> bool {
        true
    }

    open spec fn from_spec(v: StoreError) -> LedgerError {
        LedgerError::Store(v)
    }
}

#[derive(Clone, Debug)]
pub enum LedgerCommand {
    OpenApp(Network),
    GetMasterFingerprint,
    GetXpub { path: DerivationPath, display: bool },
}

impl LedgerCommand {
    /// The command's first frame fits the single length byte of the wire format.
    pub open spec fn fits_frame(&self) -> bool {
        match self {
            LedgerCommand::GetXpub { path, .. } => path.children@.len() <= MAX_PATH_LEN,
            _ => true,
        }
    }
}

#[derive(Debug)]
pub enum LedgerResponse {
    TaskDone,
    MasterFingerprint(Fingerprint),
    Xpub(bitcoin::bip32::Xpub),
}

/// Where a session stands.
pub enum State {
    New,
    Running { command: LedgerCommand, store: Option<DelegatedStore> },
    Finished(LedgerResponse),
}

/// `r` is an `UnexpectedResult` error carrying exactly `payload`.
pub open spec fn is_unexpected(r: Result<Option<ApduCommand>, LedgerError>, payload: Seq<u8>) -> bool {
    r matches Err(LedgerError::UnexpectedResult(v)) && v@ == payload
}

/// What one exchange does to a running session, given the response bytes.
pub open spec fn exchange_outcome(
    before: State,
    data: Seq<u8>,
    r: Result<Option<ApduCommand>, LedgerError>,
    after: State,
) -> bool {
    match before {
        State::Running { command, store } => if data.len() < 2 {
            r matches Err(LedgerError::Apdu(ApduError::Malformed)) && after == before
        } else {
            let sw = status_in(data);
            let payload = payload_in(data);
            if sw == StatusWord::InterruptedExecution {
                after == before && match store {
                    None => r matches Err(LedgerError::Interrupted),
                    Some(s) => match answer(s@, payload) {
                        Ok(a) => (r matches Ok(Some(f)) && f.is_frame(
                            CLA_FRAMEWORK,
                            INS_CONTINUE_INTERRUPTED,
                            0,
                            PROTOCOL_VERSION,
                            a,
                        )),
                        Err(e) => (r matches Err(LedgerError::Store(e2)) && e2 == e),
                    },
                }
            } else {
                match command {
                    LedgerCommand::GetMasterFingerprint => if payload.len() < 4 {
                        after == before && is_unexpected(r, payload)
                    } else {
                        &&& r matches Ok(None)
                        &&& after matches State::Finished(LedgerResponse::MasterFingerprint(fp))
                        &&& fp.bytes@ == payload.take(4)
                    },
                    LedgerCommand::GetXpub { .. } => if xpub_text_valid(payload) {
                        &&& r matches Ok(None)
                        &&& after matches State::Finished(LedgerResponse::Xpub(_))
                    } else {
                        after == before && is_unexpected(r, payload)
                    },
                    LedgerCommand::OpenApp(_) => if sw == StatusWord::OK || sw
                        == StatusWord::ClaNotSupported {
                        &&& r matches Ok(None)
                        &&& after matches State::Finished(LedgerResponse::TaskDone)
                    } else {
                        after == before && is_unexpected(r, payload)
                    },
                }
            }
        },
        _ => r matches Ok(None) && after == before,
    }
}

/// What ending a session in state `s` yields.
pub open spec fn end_outcome(s: State) -> Result<LedgerResponse, LedgerError> {
    match s {
        State::Finished(response) => Ok(response),
        _ => Err(LedgerError::NoErrorOrResult),
    }
}

/// Ending a session right after starting it, with no exchange in between,
/// fails with `NoErrorOrResult`, for every command and with or without a store.
pub proof fn lemma_end_before_exchange(command: LedgerCommand, store: Option<DelegatedStore>)
    ensures
        end_outcome(State::Running { command, store }) == Err::<LedgerResponse, LedgerError>(
            LedgerError::NoErrorOrResult,
        ),
{
}

/// Interpreter of one session: `start`, then `exchange` until it returns no
/// frame, then `end`.
pub struct LedgerInterpreter {
    state: State,
}

impl Default for LedgerInterpreter {
    fn default() -> (r: Self)
        ensures
            r.current() is New,
            r.wf(),
    {
        LedgerInterpreter { state: State::New }
    }
}

impl LedgerInterpreter {
    pub closed spec fn current(&self) -> State {
        self.state
    }

    pub closed spec fn wf(&self) -> bool {
        match self.state {
            State::Running { store: Some(s), .. } => s.wf(),
            _ => true,
        }
    }

    fn first_frame(command: &LedgerCommand) -> (r: ApduCommand)
        requires
            command.fits_frame(),
        ensures
            is_first_frame(*command, r),
    {
        match command {
            LedgerCommand::OpenApp(network) => open_app(*network),
            LedgerCommand::GetMasterFingerprint => get_master_fingerprint(),
            LedgerCommand::GetXpub { path, display } => get_extended_pubkey(path, *display),
        }
    }

    /// Starts a session for `command` and returns its first frame.
    pub fn start(&mut self, command: LedgerCommand) -> (r: ApduCommand)
        requires
            old(self).current() is New,
            command.fits_frame(),
        ensures
            final(self).wf(),
            final(self).current() == (State::Running { command, store: None }),
            is_first_frame(command, r),
    {
        let frame = Self::first_frame(&command);
        self.state = State::Running { command, store: None };
        frame
    }

    /// Starts a session for `command` whose client commands `store` answers.
    pub fn start_with_store(&mut self, command: LedgerCommand, store: DelegatedStore) -> (r:
        ApduCommand)
        requires
            old(self).current() is New,
            command.fits_frame(),
            store.wf(),
        ensures
            final(self).wf(),
            final(self).current() == (State::Running { command, store: Some(store) }),
            is_first_frame(command, r),
    {
        let frame = Self::first_frame(&command);
        self.state = State::Running { command, store: Some(store) };
        frame
    }

    /// Takes the device's response; returns the next frame to send, or none
    /// once the session has finished.
    pub fn exchange(&mut self, data: Vec<u8>) -> (r: Result<Option<ApduCommand>, LedgerError>)
        requires
            old(self).wf(),
        ensures
            final(self).wf(),
            exchange_outcome(old(self).current(), data@, r, final(self).current()),
            r matches Ok(Some(f)) ==> f.data@.len() <= 255,
    {
        let running = match &self.state {
            State::Running { .. } => true,
            _ => false,
        };
        if !running {
            return Ok(None);
        }
        let ghost bytes = data@;
        let res = match ApduResponse::decode(data) {
            Ok(res) => res,
            Err(e) => return Err(LedgerError::Apdu(e)),
        };
        if res.status_word == StatusWord::InterruptedExecution {
            return match &self.state {
                State::Running { store: Some(store), .. } => match store.execute(&res.data) {
                    Ok(payload) => Ok(Some(continue_interrupted(payload))),
                    Err(e) => Err(LedgerError::Store(e)),
                },
                _ => Err(LedgerError::Interrupted),
            };
        }
        let outcome: Result<LedgerResponse, LedgerError> = match &self.state {
            State::Running { command, .. } => match command {
                LedgerCommand::GetMasterFingerprint => {
                    if res.data.len() < 4 {
                        Err(LedgerError::UnexpectedResult(res.data))
                    } else {
                        let bytes: [u8; 4] = [res.data[0], res.data[1], res.data[2], res.data[3]];
                        assert(bytes@ =~= res.data@.take(4));
                        Ok(LedgerResponse::MasterFingerprint(Fingerprint { bytes }))
                    }
                },
                LedgerCommand::GetXpub { .. } => match parse_xpub(&res.data) {
                    Some(xpub) => Ok(LedgerResponse::Xpub(xpub)),
                    None => Err(LedgerError::UnexpectedResult(res.data)),
                },
                LedgerCommand::OpenApp(_) => {
                    if res.status_word == StatusWord::OK || res.status_word
                        == StatusWord::ClaNotSupported {
                        Ok(LedgerResponse::TaskDone)
                    } else {
                        Err(LedgerError::UnexpectedResult(res.data))
                    }
                },
            },
            _ => Err(LedgerError::NoErrorOrResult),
        };
        match outcome {
            Ok(response) => {
                self.state = State::Finished(response);
                Ok(None)
            },
            Err(e) => Err(e),
        }
    }

    /// Consumes the session: its result once finished, `NoErrorOrResult` before.
    pub fn end(self) -> (r: Result<LedgerResponse, LedgerError>)
        ensures
            r == end_outcome(self.current()),
    {
        match self.state {
            State::Finished(response) => Ok(response),
            _ => Err(LedgerError::NoErrorOrResult),
        }
    }
}

} // verus!
