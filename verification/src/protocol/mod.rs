//! Messages of the control plane.
use crate::bytes::{be, be_value, lemma_be_len, lemma_value_of_be, lemma_widths, push_all, push_be, read_be};
use crate::config::text_view;
use crate::error::Error;
use crate::ids::Uuid;
use vstd::prelude::*;

pub mod memory;
pub mod request;
pub use self::memory::LogicalTrainingMemory;
pub use self::request::{ClusterStatus, Request};

verus! {

/// The version that both ends of a connection speak.
pub const VERSION: u32 = 1;

/// The most bytes of one message.
pub const MAX_FRAME: usize = 8_388_608;

/// A message with the version of its sender.
pub struct Wire<T> {
    pub protocol_version: u32,
    pub message: T,
}

/// What a server opens a connection with.
#[derive(Clone, Copy, Debug, PartialEq, Eq, Structural)]
pub struct Challenge {
    pub nonce: Uuid,
}

/// What a client answers.
pub struct Authentication {
    pub cluster_name: String,
    pub nonce: Uuid,
    pub mac: Option<String>,
}

/// What a server lets a client in with.
pub struct Authenticated {
    pub mac: Option<String>,
}

impl<T> Wire<T> {
    /// A message under this version.
    pub fn new(message: T) -> (r: Self)
        ensures
            r.protocol_version == VERSION,
            r.message == message,
    {
        Wire { protocol_version: VERSION, message }
    }

    /// The message, if its sender speaks this version.
    pub fn open(self) -> (r: Result<T, Error>)
        ensures
            r == if self.protocol_version == VERSION {
                Ok(self.message)
            } else {
                Err(Error::ProtocolVersion { received: self.protocol_version })
            },
    {
        if self.protocol_version != VERSION {
            return Err(Error::ProtocolVersion { received: self.protocol_version });
        }
        Ok(self.message)
    }
}

/// A message on the wire: its length in four bytes, most significant first,
/// and the message.
pub open spec fn framed(body: Seq<u8>) -> Seq<u8> {
    be(body.len(), 4) + body
}

/// Puts a message on the wire, if it is not too long.
pub fn frame(body: &[u8]) -> (r: Result<Vec<u8>, Error>)
    ensures
        match r {
            Ok(bytes) => body@.len() <= MAX_FRAME && bytes@ == framed(body@),
            Err(e) => body@.len() > MAX_FRAME && e == Error::FrameLimit,
        },
{
    if body.len() > MAX_FRAME {
        return Err(Error::FrameLimit);
    }
    let mut bytes: Vec<u8> = Vec::new();
    push_be(&mut bytes, body.len() as u128, 4);
    push_all(&mut bytes, body);
    assert(bytes@ =~= framed(body@));
    Ok(bytes)
}

/// The length of the message that follows four bytes, if it is not too long.
pub fn frame_size(header: &[u8]) -> (r: Result<usize, Error>)
    requires
        header@.len() == 4,
    ensures
        match r {
            Ok(n) => n == be_value(header@) && n <= MAX_FRAME,
            Err(e) => be_value(header@) > MAX_FRAME && e == Error::FrameLimit,
        },
{
    proof {
        assert(header@.subrange(0, 4) =~= header@);
        lemma_widths();
    }
    let n: u128 = read_be(header, 0, 4);
    if n > MAX_FRAME as u128 {
        return Err(Error::FrameLimit);
    }
    Ok(n as usize)
}

/// A receiver reads the length that the sender wrote, and then the message.
pub proof fn law_frame_round_trip(body: Seq<u8>)
    requires
        body.len() <= MAX_FRAME,
    ensures
        framed(body).len() == 4 + body.len(),
        be_value(framed(body).subrange(0, 4)) == body.len(),
        framed(body).skip(4) == body,
{
    lemma_widths();
    lemma_be_len(body.len(), 4);
    lemma_value_of_be(body.len(), 4);
    assert(framed(body).subrange(0, 4) =~= be(body.len(), 4));
    assert(framed(body).skip(4) =~= body);
}

/// An answer: data, or the text of an error.
pub struct Response<T> {
    pub ok: bool,
    pub data: Option<T>,
    pub error: Option<String>,
}

/// What an answer that is not good says.
pub open spec fn complaint(error: Option<String>) -> Seq<char> {
    match error {
        Some(text) => text@,
        None => "protocol failure"@,
    }
}

impl<T> Response<T> {
    /// A good answer.
    pub fn data(value: T) -> (r: Self)
        ensures
            r.ok,
            r.data == Some(value),
            r.error is None,
    {
        Response { ok: true, data: Some(value), error: None }
    }

    /// An answer that tells of an error.
    pub fn error(error: &Error) -> (r: Self)
        ensures
            !r.ok,
            r.data is None,
            text_view(r.error) == Some(error.text()),
    {
        Response { ok: false, data: None, error: Some(error.message()) }
    }

    /// Whether the answer is good, or what it says.
    pub fn check(&self) -> (r: Result<(), Error>)
        ensures
            match r {
                Ok(_) => self.ok,
                Err(e) => !self.ok && e.text() == complaint(self.error) && e is Told,
            },
    {
        if self.ok {
            return Ok(());
        }
        match &self.error {
            Some(text) => Err(Error::Told { text: text.clone() }),
            None => Err(Error::Told { text: "protocol failure".to_owned() }),
        }
    }

    /// The data of a good answer. A good answer without any is an error too.
    pub fn into_data(self) -> (r: Result<T, Error>)
        ensures
            match r {
                Ok(value) => self.ok && self.data == Some(value),
                Err(e) => if !self.ok {
                    e.text() == complaint(self.error) && e is Told
                } else {
                    self.data is None && e == Error::ProtocolFailure
                },
            },
    {
        self.check()?;
        match self.data {
            Some(value) => Ok(value),
            None => Err(Error::ProtocolFailure),
        }
    }
}

} // verus!
