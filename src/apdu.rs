//! Command and response frames exchanged with the device.
use vstd::prelude::*;

verus! {

/// Status words the host recognises; every other code is kept as `Unknown`.
#[derive(Clone, Copy, Debug, PartialEq, Eq, Structural)]
pub enum StatusWord {
    OK,
    InterruptedExecution,
    ClaNotSupported,
    Unknown(u16),
}

pub const SW_OK: u16 = 0x9000;

pub const SW_INTERRUPTED_EXECUTION: u16 = 0xE000;

pub const SW_CLA_NOT_SUPPORTED: u16 = 0x6E00;

/// The status word that a raw 16-bit code stands for.
pub open spec fn status_of(code: u16) -> StatusWord {
    if code == SW_OK {
        StatusWord::OK
    } else if code == SW_INTERRUPTED_EXECUTION {
        StatusWord::InterruptedExecution
    } else if code == SW_CLA_NOT_SUPPORTED {
        StatusWord::ClaNotSupported
    } else {
        StatusWord::Unknown(code)
    }
}

impl StatusWord {
    pub fn from_code(code: u16) -> (r: StatusWord)
        ensures
            r == status_of(code),
    {
        if code == SW_OK {
            StatusWord::OK
        } else if code == SW_INTERRUPTED_EXECUTION {
            StatusWord::InterruptedExecution
        } else if code == SW_CLA_NOT_SUPPORTED {
            StatusWord::ClaNotSupported
        } else {
            StatusWord::Unknown(code)
        }
    }
}

/// A command frame: class, instruction, two parameters and a payload.
#[derive(Clone, Debug)]
pub struct ApduCommand {
    pub cla: u8,
    pub ins: u8,
    pub p1: u8,
    pub p2: u8,
    pub data: Vec<u8>,
}

impl ApduCommand {
    /// The frame has exactly these header bytes and this payload.
    pub open spec fn is_frame(&self, cla: u8, ins: u8, p1: u8, p2: u8, data: Seq<u8>) -> bool {
        &&& self.cla == cla
        &&& self.ins == ins
        &&& self.p1 == p1
        &&& self.p2 == p2
        &&& self.data@ == data
    }

    /// Wire form: `CLA | INS | P1 | P2 | Lc | payload`.
    pub open spec fn wire(&self) -> Seq<u8> {
        seq![self.cla, self.ins, self.p1, self.p2, self.data@.len() as u8] + self.data@
    }

    /// The single length byte limits the payload to 255 bytes.
    pub fn encode(&self) -> (r: Vec<u8>)
        requires
            self.data@.len() <= 255,
        ensures
            r@ == self.wire(),
    {
        let mut out: Vec<u8> = Vec::new();
        out.push(self.cla);
        out.push(self.ins);
        out.push(self.p1);
        out.push(self.p2);
        out.push(self.data.len() as u8);
        let mut i: usize = 0;
        while i < self.data.len()
            invariant
                i <= self.data@.len() <= 255,
                out@ == seq![self.cla, self.ins, self.p1, self.p2, self.data@.len() as u8]
                    + self.data@.subrange(0, i as int),
            decreases self.data@.len() - i,
        {
            out.push(self.data[i]);
            i = i + 1;
            assert(self.data@.subrange(0, i as int) =~= self.data@.subrange(0, i - 1).push(
                self.data@[i - 1],
            ));
        }
        assert(self.data@.subrange(0, i as int) =~= self.data@);
        out
    }
}

/// A response frame: payload and the status word that ended it.
#[derive(Clone, Debug)]
pub struct ApduResponse {
    pub data: Vec<u8>,
    pub status_word: StatusWord,
}

#[derive(Clone, Copy, Debug, PartialEq, Eq, Structural)]
pub enum ApduError {
    /// The response is shorter than the two status-word bytes.
    Malformed,
}

/// Width of the status word that ends every response.
pub const STATUS_WORD_LEN: usize = 2;

/// The big-endian status word at the end of a response of at least two bytes.
pub open spec fn status_in(bytes: Seq<u8>) -> StatusWord {
    status_of((bytes[bytes.len() - 2] as u16 * 256 + bytes[bytes.len() - 1] as u16) as u16)
}

/// Everything before the status word.
pub open spec fn payload_in(bytes: Seq<u8>) -> Seq<u8> {
    bytes.subrange(0, bytes.len() - 2)
}

impl ApduResponse {
    pub fn decode(bytes: Vec<u8>) -> (r: Result<ApduResponse, ApduError>)
        ensures
            bytes@.len() < 2 ==> r == Err::<ApduResponse, ApduError>(ApduError::Malformed),
            bytes@.len() >= 2 ==> r is Ok && r->Ok_0.data@ == payload_in(bytes@)
                && r->Ok_0.status_word == status_in(bytes@),
    {
        let n = bytes.len();
        if n < STATUS_WORD_LEN {
            return Err(ApduError::Malformed);
        }
        let code: u16 = (bytes[n - 2] as u16) * 256 + bytes[n - 1] as u16;
        let status_word = StatusWord::from_code(code);
        let mut data = bytes;
        data.truncate(n - 2);
        assert(data@ =~= payload_in(bytes@));
        Ok(ApduResponse { data, status_word })
    }
}

} // verus!
