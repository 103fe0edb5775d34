//! A session with one tag.

use vstd::prelude::*;
use crate::codec::block_of;
use crate::codec::decode_block;
use crate::codec::decode_uid;
use crate::codec::le_value;
use crate::codec::lemma_frame_shape;
use crate::codec::uid_of;
use crate::codec::Command;
use crate::codec::FramingError;
use crate::mem::BLOCK_SIZE;
use crate::mem::UID_SIZE;
use crate::transport::discovery_modulation;
use crate::transport::one_more;
use crate::transport::recorded;
use crate::transport::selection_modulation;
use crate::transport::BaudRate;
use crate::transport::Exchange;
use crate::transport::Link;
use crate::transport::Modulation;
use crate::transport::ModulationType;
use crate::transport::Timeout;
use crate::transport::Transport;

verus! {

/// Why an operation on a tag failed.
#[derive(Debug, PartialEq, Eq)]
pub enum Error<E> {
    /// No tag was found, or the tag could not be selected.
    Connect(E),
    /// The transport failed to move a frame.
    Transport(E),
    /// A reply arrived with the wrong number of bytes.
    Framing(FramingError),
}

/// What the driver makes of the reply to a block read.
pub open spec fn block_result<E>(reply: Result<Seq<u8>, E>) -> Result<u32, Error<E>> {
    match reply {
        Ok(bytes) => match block_of(bytes) {
            Ok(value) => Ok(value),
            Err(e) => Err(Error::Framing(e)),
        },
        Err(e) => Err(Error::Transport(e)),
    }
}

/// What the driver makes of the reply to a UID request.
pub open spec fn uid_result<E>(reply: Result<Seq<u8>, E>) -> Result<u64, Error<E>> {
    match reply {
        Ok(bytes) => match uid_of(bytes) {
            Ok(value) => Ok(value),
            Err(e) => Err(Error::Framing(e)),
        },
        Err(e) => Err(Error::Transport(e)),
    }
}

/// What the driver makes of the outcome of a block write.
pub open spec fn write_result<E>(outcome: Result<(), E>) -> Result<(), Error<E>> {
    match outcome {
        Ok(()) => Ok(()),
        Err(e) => Err(Error::Transport(e)),
    }
}

/// `after` is `before` and one block read of `address` with result `result`.
pub open spec fn reads_block<E>(
    before: Seq<Exchange<E>>,
    after: Seq<Exchange<E>>,
    address: u8,
    result: Result<u32, Error<E>>,
) -> bool {
    &&& one_more(before, after)
    &&& after.last() matches Exchange::Transceive { frame, reply_len, timeout, reply }
    &&& frame == Command::ReadBlock(address).frame()
    &&& reply_len == BLOCK_SIZE
    &&& timeout == Timeout::Never
    &&& result == block_result(reply)
}

/// `after` is `before` and one write of `value` to the block at `address`
/// with result `result`.
pub open spec fn writes_block<E>(
    before: Seq<Exchange<E>>,
    after: Seq<Exchange<E>>,
    address: u8,
    value: u32,
    result: Result<(), Error<E>>,
) -> bool {
    &&& one_more(before, after)
    &&& after.last() matches Exchange::Send { frame, timeout, outcome }
    &&& frame == Command::WriteBlock(address, value).frame()
    &&& timeout == Timeout::Never
    &&& result == write_result(outcome)
}

/// `after` is `before` and one UID request with result `result`.
pub open spec fn gets_uid<E>(
    before: Seq<Exchange<E>>,
    after: Seq<Exchange<E>>,
    result: Result<u64, Error<E>>,
) -> bool {
    &&& one_more(before, after)
    &&& after.last() matches Exchange::Transceive { frame, reply_len, timeout, reply }
    &&& frame == Command::GetUid.frame()
    &&& reply_len == UID_SIZE
    &&& timeout == Timeout::Never
    &&& result == uid_result(reply)
}

/// The transcript of a session that has just connected: one discovery and
/// one selection, both successful.
pub open spec fn connected<E>(transcript: Seq<Exchange<E>>) -> bool {
    &&& transcript.len() == 2
    &&& transcript[0] matches Exchange::Discover { modulation, max_targets, outcome }
    &&& modulation == discovery_modulation()
    &&& max_targets == 1
    &&& outcome is Ok
    &&& transcript[1] matches Exchange::Select { modulation, outcome }
    &&& modulation == selection_modulation()
    &&& outcome is Ok
}

/// A connection attempt that takes the transcript from `before` to `after`
/// and yields `result`.
///
/// One discovery is made, under the discovery modulation and for one target.
/// If it fails, nothing more is asked of the transport and the result is the
/// connect error with the discovery's cause. Otherwise one selection is made,
/// under the selection modulation: the attempt succeeds exactly if the
/// selection does, and fails with the connect error of the selection's cause
/// otherwise.
pub open spec fn attempted<E>(
    before: Seq<Exchange<E>>,
    after: Seq<Exchange<E>>,
    result: Result<(), Error<E>>,
) -> bool {
    &&& before.len() < after.len() <= before.len() + 2
    &&& after.take(before.len() as int) =~= before
    &&& after[before.len() as int] matches Exchange::Discover { modulation, max_targets, outcome }
    &&& modulation == discovery_modulation()
    &&& max_targets == 1
    &&& match outcome {
        Err(cause) => {
            &&& after.len() == before.len() + 1
            &&& result == Err::<(), Error<E>>(Error::Connect(cause))
        },
        Ok(_) => {
            &&& after.len() == before.len() + 2
            &&& after[before.len() as int + 1] matches Exchange::Select { modulation, outcome }
            &&& modulation == selection_modulation()
            &&& match outcome {
                Err(cause) => result == Err::<(), Error<E>>(Error::Connect(cause)),
                Ok(_) => result is Ok,
            }
        },
    }
}

/// An attempt that starts from nothing and succeeds leaves the transcript of
/// a fresh connection, and only such an attempt does.
pub proof fn lemma_attempt_connects<E>(transcript: Seq<Exchange<E>>, result: Result<(), Error<E>>)
    requires
        attempted(Seq::<Exchange<E>>::empty(), transcript, result),
    ensures
        result is Ok <==> connected(transcript),
        result matches Err(e) ==> e is Connect,
{
}

/// What the exchange shows the tag to hold at `address`: the value that a
/// successful read of the block returned, or the value that a successful
/// write stored in it.
pub open spec fn block_shown<E>(exchange: Exchange<E>, address: u8) -> Option<u32> {
    match exchange {
        Exchange::Transceive { frame, reply: Ok(bytes), .. } => match block_of(bytes) {
            Ok(value) => if frame == Command::ReadBlock(address).frame() {
                Some(value)
            } else {
                None
            },
            Err(_) => None,
        },
        Exchange::Send { frame, outcome: Ok(_), .. } => {
            let value = le_value(frame.skip(2)) as u32;
            if frame == Command::WriteBlock(address, value).frame() {
                Some(value)
            } else {
                None
            }
        },
        _ => None,
    }
}

/// The UID that the exchange shows the tag to have: what a successful UID
/// request returned.
pub open spec fn uid_shown<E>(exchange: Exchange<E>) -> Option<u64> {
    match exchange {
        Exchange::Transceive { frame, reply: Ok(bytes), .. } => match uid_of(bytes) {
            Ok(value) => if frame == Command::GetUid.frame() {
                Some(value)
            } else {
                None
            },
            Err(_) => None,
        },
        _ => None,
    }
}

/// What the tag holds at `address` as far as the transcript shows: the value
/// last read from the block or written to it, if there was such an exchange.
pub open spec fn block_on_tag<E>(transcript: Seq<Exchange<E>>, address: u8) -> Option<u32>
    decreases transcript.len(),
{
    if transcript.len() == 0 {
        None
    } else {
        match block_shown(transcript.last(), address) {
            Some(value) => Some(value),
            None => block_on_tag(transcript.drop_last(), address),
        }
    }
}

/// The tag's UID as far as the transcript shows: the one last read from the
/// tag, if there was such an exchange.
pub open spec fn uid_on_tag<E>(transcript: Seq<Exchange<E>>) -> Option<u64>
    decreases transcript.len(),
{
    if transcript.len() == 0 {
        None
    } else {
        match uid_shown(transcript.last()) {
            Some(value) => Some(value),
            None => uid_on_tag(transcript.drop_last()),
        }
    }
}

/// A fresh connection shows nothing of the tag's memory.
pub proof fn lemma_connected_shows_nothing<E>(transcript: Seq<Exchange<E>>, address: u8)
    requires
        connected(transcript),
    ensures
        block_on_tag(transcript, address) is None,
        uid_on_tag(transcript) is None,
{
    reveal_with_fuel(block_on_tag, 3);
    reveal_with_fuel(uid_on_tag, 3);
    assert(transcript.drop_last().len() == 1);
    assert(transcript.drop_last().drop_last().len() == 0);
}

/// A block read shows the value it returned for the block it read, if it
/// succeeded, and nothing else.
pub proof fn lemma_read_shows<E>(
    before: Seq<Exchange<E>>,
    after: Seq<Exchange<E>>,
    address: u8,
    result: Result<u32, Error<E>>,
    other: u8,
)
    requires
        reads_block(before, after, address, result),
    ensures
        block_on_tag(after, other) == (match result {
            Ok(value) => if other == address {
                Some(value)
            } else {
                block_on_tag(before, other)
            },
            Err(_) => block_on_tag(before, other),
        }),
        uid_on_tag(after) == uid_on_tag(before),
{
    let read = Command::ReadBlock(address).frame();
    assert(read.len() == 2 && read[1] == address);
    assert(Command::ReadBlock(other).frame()[1] == other);
    assert(Command::GetUid.frame().len() == 1);
}

/// A block write shows the value it stored in the block it wrote, if it
/// succeeded, and nothing else.
pub proof fn lemma_write_shows<E>(
    before: Seq<Exchange<E>>,
    after: Seq<Exchange<E>>,
    address: u8,
    value: u32,
    result: Result<(), Error<E>>,
    other: u8,
)
    requires
        writes_block(before, after, address, value, result),
    ensures
        block_on_tag(after, other) == (match result {
            Ok(_) => if other == address {
                Some(value)
            } else {
                block_on_tag(before, other)
            },
            Err(_) => block_on_tag(before, other),
        }),
        uid_on_tag(after) == uid_on_tag(before),
{
    let write = Command::WriteBlock(address, value);
    lemma_frame_shape(write);
    let stored = le_value(write.frame().skip(2)) as u32;
    assert(stored == value);
    lemma_frame_shape(Command::WriteBlock(other, stored));
}

/// A UID request shows the UID it returned, if it succeeded, and nothing else.
pub proof fn lemma_uid_request_shows<E>(
    before: Seq<Exchange<E>>,
    after: Seq<Exchange<E>>,
    result: Result<u64, Error<E>>,
    other: u8,
)
    requires
        gets_uid(before, after, result),
    ensures
        block_on_tag(after, other) == block_on_tag(before, other),
        uid_on_tag(after) == (match result {
            Ok(value) => Some(value),
            Err(_) => uid_on_tag(before),
        }),
{
    assert(Command::GetUid.frame().len() == 1);
    assert(Command::ReadBlock(other).frame().len() == 2);
}

/// Turns the reply to a block read into the block's value.
pub fn block_from_reply<E>(reply: Result<Vec<u8>, E>) -> (result: Result<u32, Error<E>>)
    ensures
        result == block_result(recorded(reply)),
{
    match reply {
        Ok(bytes) => match decode_block(bytes.as_slice()) {
            Ok(value) => Ok(value),
            Err(e) => Err(Error::Framing(e)),
        },
        Err(e) => Err(Error::Transport(e)),
    }
}

/// Turns the reply to a UID request into the UID.
pub fn uid_from_reply<E>(reply: Result<Vec<u8>, E>) -> (result: Result<u64, Error<E>>)
    ensures
        result == uid_result(recorded(reply)),
{
    match reply {
        Ok(bytes) => match decode_uid(bytes.as_slice()) {
            Ok(value) => Ok(value),
            Err(e) => Err(Error::Framing(e)),
        },
        Err(e) => Err(Error::Transport(e)),
    }
}

/// Looks for a tag over `link` and selects it.
///
/// Both steps are tried once, in this order; selection is not tried when
/// discovery fails.
pub(crate) fn attempt<T: Transport>(link: &mut Link<T>) -> (result: Result<(), Error<T::Error>>)
    ensures
        attempted(old(link).transcript(), final(link).transcript(), result),
{
    let discovery = Modulation {
        modulation_type: ModulationType::Iso14443b,
        baud_rate: BaudRate::Baud106,
    };
    match link.list_passive_targets(discovery, 1) {
        Ok(()) => {},
        Err(e) => {
            return Err(Error::Connect(e));
        },
    }
    let selection = Modulation {
        modulation_type: ModulationType::Iso14443b2sr,
        baud_rate: BaudRate::Baud106,
    };
    match link.select_passive_target(selection) {
        Ok(()) => Ok(()),
        Err(e) => Err(Error::Connect(e)),
    }
}

/// A tag that has been found and selected, and the transport that reaches it.
pub struct Srix4k<T: Transport> {
    /// Reader that is connected to the tag.
    device: Link<T>,
}

impl<T: Transport> Srix4k<T> {
    /// Every call of the transport that was made for this session, oldest first.
    pub closed spec fn transcript(&self) -> Seq<Exchange<T::Error>> {
        self.device.transcript()
    }

    /// The session over a link on which a connection attempt has succeeded.
    pub(crate) fn over(device: Link<T>) -> (tag: Srix4k<T>)
        requires
            connected(device.transcript()),
        ensures
            tag.transcript() == device.transcript(),
    {
        Srix4k { device }
    }

    /// Looks for a tag and selects it.
    ///
    /// The calls are those of one connection attempt, as [`attempted`]
    /// describes it, on a transport of which nothing was asked before: a
    /// session comes back exactly if the attempt succeeded, and the error of
    /// the attempt otherwise.
    pub fn connect_from(device: T) -> (session: Result<Srix4k<T>, Error<T::Error>>)
        ensures
            session matches Ok(tag) ==> connected(tag.transcript()),
            session matches Err(e) ==> e is Connect,
    {
        let mut link = Link::new(device);
        match attempt(&mut link) {
            Ok(()) => Ok(Srix4k::over(link)),
            Err(e) => Err(e),
        }
    }

    /// Reads the block at `block_address` from the tag.
    pub fn send_read_block(&mut self, block_address: u8) -> (block: Result<u32, Error<T::Error>>)
        ensures
            reads_block(old(self).transcript(), final(self).transcript(), block_address, block),
    {
        let frame = Command::ReadBlock(block_address).encode();
        let reply = self.device.transceive(frame.as_slice(), BLOCK_SIZE, Timeout::Never);
        block_from_reply(reply)
    }

    /// Writes `block_data` to the block at `block_address` of the tag.
    ///
    /// The tag acknowledges nothing: success means that the frame went out.
    pub fn send_write_block(&mut self, block_address: u8, block_data: u32) -> (done: Result<
        (),
        Error<T::Error>,
    >)
        ensures
            writes_block(
                old(self).transcript(),
                final(self).transcript(),
                block_address,
                block_data,
                done,
            ),
    {
        let frame = Command::WriteBlock(block_address, block_data).encode();
        match self.device.send(frame.as_slice(), Timeout::Never) {
            Ok(()) => Ok(()),
            Err(e) => Err(Error::Transport(e)),
        }
    }

    /// Reads the tag's UID.
    pub fn send_get_uid(&mut self) -> (uid: Result<u64, Error<T::Error>>)
        ensures
            gets_uid(old(self).transcript(), final(self).transcript(), uid),
    {
        let frame = Command::GetUid.encode();
        let reply = self.device.transceive(frame.as_slice(), UID_SIZE as usize, Timeout::Never);
        uid_from_reply(reply)
    }
}

} // verus!
