//! Wire format: command frames and fixed-width replies.
//!
//! Every multi-byte field travels least significant byte first.

use vstd::prelude::*;
use crate::mem::BLOCK_SIZE;
use crate::mem::UID_SIZE;

verus! {

/// Opcode of a block read.
pub const OPCODE_READ_BLOCK: u8 = 0x08;

/// Opcode of a block write.
pub const OPCODE_WRITE_BLOCK: u8 = 0x09;

/// Opcode of the UID request.
pub const OPCODE_GET_UID: u8 = 0x0B;

/// How many numbers `len` bytes can spell: 256 to the power `len`.
pub open spec fn span(len: nat) -> nat
    decreases len,
{
    if len == 0 {
        1
    } else {
        256 * span((len - 1) as nat)
    }
}

/// The number that `bytes` spell, least significant byte first.
pub open spec fn le_value(bytes: Seq<u8>) -> nat
    decreases bytes.len(),
{
    if bytes.len() == 0 {
        0
    } else {
        bytes[0] as nat + 256 * le_value(bytes.skip(1))
    }
}

/// The `len` low bytes of `value`, least significant byte first.
pub open spec fn le_bytes(value: nat, len: nat) -> Seq<u8>
    decreases len,
{
    if len == 0 {
        Seq::empty()
    } else {
        seq![(value % 256) as u8] + le_bytes(value / 256, (len - 1) as nat)
    }
}

/// Commands that a tag in ready state accepts.
#[derive(Clone, Copy, Debug, PartialEq, Eq, Structural)]
pub enum Command {
    /// Read the block at the given address (0 to 127, or 255 for the system block).
    ReadBlock(u8),
    /// Write the given value to the block at the given address.
    WriteBlock(u8, u32),
    /// Ask for the tag's UID.
    GetUid,
}

impl Command {
    /// The frame that carries this command: the opcode, then the address
    /// where there is one, then the four bytes of the value where there is one.
    pub open spec fn frame(self) -> Seq<u8> {
        match self {
            Command::ReadBlock(address) => seq![OPCODE_READ_BLOCK, address],
            Command::WriteBlock(address, value) => seq![OPCODE_WRITE_BLOCK, address] + le_bytes(
                value as nat,
                4,
            ),
            Command::GetUid => seq![OPCODE_GET_UID],
        }
    }

    /// Builds the frame that carries this command to the tag.
    pub fn encode(self) -> (frame: Vec<u8>)
        ensures
            frame@ == self.frame(),
    {
        let mut frame: Vec<u8> = Vec::new();
        match self {
            Command::ReadBlock(address) => {
                frame.push(OPCODE_READ_BLOCK);
                frame.push(address);
            },
            Command::WriteBlock(address, value) => {
                frame.push(OPCODE_WRITE_BLOCK);
                frame.push(address);
                frame.push((value % 256) as u8);
                frame.push((value / 256 % 256) as u8);
                frame.push((value / 65536 % 256) as u8);
                frame.push((value / 16777216) as u8);
                proof {
                    reveal_with_fuel(le_bytes, 5);
                }
            },
            Command::GetUid => {
                frame.push(OPCODE_GET_UID);
            },
        }
        frame
    }
}

impl From<Command> for Vec<u8> {
    /// Builds the frame that carries `command` to the tag.
    fn from(command: Command) -> (frame: Vec<u8>)
        ensures
            frame@ == command.frame(),
    {
        command.encode()
    }
}

/// The conversion is specified by the view of its result, in the contract of
/// `from`, and not as a function to `Vec`.
impl vstd::std_specs::convert::FromSpecImpl<Command> for Vec<u8> {
    open spec fn obeys_from_spec() -> bool {
        false
    }

    open spec fn from_spec(command: Command) -> Vec<u8> {
        arbitrary()
    }
}

/// A reply whose length is not the one the protocol fixes.
#[derive(Clone, Copy, Debug, PartialEq, Eq, Structural)]
pub struct FramingError {
    /// Number of bytes the protocol fixes for the reply.
    pub expected: usize,
    /// Number of bytes that arrived.
    pub actual: usize,
}

/// What the reply to a block read decodes to.
pub open spec fn block_of(reply: Seq<u8>) -> Result<u32, FramingError> {
    if reply.len() == BLOCK_SIZE {
        Ok(le_value(reply) as u32)
    } else {
        Err(FramingError { expected: BLOCK_SIZE, actual: reply.len() as usize })
    }
}

/// What the reply to a UID request decodes to.
pub open spec fn uid_of(reply: Seq<u8>) -> Result<u64, FramingError> {
    if reply.len() == UID_SIZE {
        Ok(le_value(reply) as u64)
    } else {
        Err(FramingError { expected: UID_SIZE as usize, actual: reply.len() as usize })
    }
}

/// Decodes the reply to a block read: exactly four bytes, least significant first.
pub fn decode_block(reply: &[u8]) -> (block: Result<u32, FramingError>)
    ensures
        block == block_of(reply@),
        block is Ok <==> reply@.len() == BLOCK_SIZE,
        block matches Ok(value) ==> value == le_value(reply@),
{
    if reply.len() != BLOCK_SIZE {
        return Err(FramingError { expected: BLOCK_SIZE, actual: reply.len() });
    }
    proof {
        reveal_with_fuel(le_value, 5);
    }
    let b0: u32 = reply[0] as u32;
    let b1: u32 = reply[1] as u32;
    let b2: u32 = reply[2] as u32;
    let b3: u32 = reply[3] as u32;
    Ok(b0 + b1 * 0x100 + b2 * 0x1_0000 + b3 * 0x100_0000)
}

/// Decodes the reply to a UID request: exactly eight bytes, least significant first.
pub fn decode_uid(reply: &[u8]) -> (uid: Result<u64, FramingError>)
    ensures
        uid == uid_of(reply@),
        uid is Ok <==> reply@.len() == UID_SIZE,
        uid matches Ok(value) ==> value == le_value(reply@),
{
    if reply.len() != UID_SIZE as usize {
        return Err(FramingError { expected: UID_SIZE as usize, actual: reply.len() });
    }
    proof {
        reveal_with_fuel(le_value, 9);
    }
    let b0: u64 = reply[0] as u64;
    let b1: u64 = reply[1] as u64;
    let b2: u64 = reply[2] as u64;
    let b3: u64 = reply[3] as u64;
    let b4: u64 = reply[4] as u64;
    let b5: u64 = reply[5] as u64;
    let b6: u64 = reply[6] as u64;
    let b7: u64 = reply[7] as u64;
    let low: u64 = b0 + b1 * 0x100 + b2 * 0x1_0000 + b3 * 0x100_0000;
    let high: u64 = b4 + b5 * 0x100 + b6 * 0x1_0000 + b7 * 0x100_0000;
    Ok(low + high * 0x1_0000_0000)
}

/// `le_bytes` yields as many bytes as it is asked for.
pub proof fn lemma_le_bytes_len(value: nat, len: nat)
    ensures
        le_bytes(value, len).len() == len,
    decreases len,
{
    if len > 0 {
        lemma_le_bytes_len(value / 256, (len - 1) as nat);
    }
}

/// Spelling a number in enough bytes and reading the bytes back gives the number.
pub proof fn lemma_le_value_of_bytes(value: nat, len: nat)
    requires
        value < span(len),
    ensures
        le_value(le_bytes(value, len)) == value,
    decreases len,
{
    if len > 0 {
        let rest = le_bytes(value / 256, (len - 1) as nat);
        let all = le_bytes(value, len);
        lemma_le_value_of_bytes(value / 256, (len - 1) as nat);
        assert(all.skip(1) =~= rest);
    }
}

/// Every block value survives the wire: its four bytes decode to it.
pub proof fn lemma_block_round_trip(value: u32)
    ensures
        le_bytes(value as nat, 4).len() == BLOCK_SIZE,
        block_of(le_bytes(value as nat, 4)) == Ok::<u32, FramingError>(value),
{
    reveal_with_fuel(span, 5);
    lemma_le_bytes_len(value as nat, 4);
    lemma_le_value_of_bytes(value as nat, 4);
}

/// Every UID survives the wire: its eight bytes decode to it.
pub proof fn lemma_uid_round_trip(value: u64)
    ensures
        le_bytes(value as nat, 8).len() == UID_SIZE,
        uid_of(le_bytes(value as nat, 8)) == Ok::<u64, FramingError>(value),
{
    reveal_with_fuel(span, 9);
    lemma_le_bytes_len(value as nat, 8);
    lemma_le_value_of_bytes(value as nat, 8);
}

/// The shape of each frame: a block read is its opcode and the address, a
/// block write is its opcode, the address and four bytes of value, and a UID
/// request is its opcode alone.
pub proof fn lemma_frame_shape(command: Command)
    ensures
        match command {
            Command::ReadBlock(address) => {
                &&& command.frame().len() == 2
                &&& command.frame()[0] == 0x08
                &&& command.frame()[1] == address
            },
            Command::WriteBlock(address, value) => {
                &&& command.frame().len() == 6
                &&& command.frame()[0] == 0x09
                &&& command.frame()[1] == address
                &&& command.frame().skip(2) == le_bytes(value as nat, 4)
                &&& block_of(command.frame().skip(2)) == Ok::<u32, FramingError>(value)
            },
            Command::GetUid => {
                &&& command.frame().len() == 1
                &&& command.frame()[0] == 0x0B
            },
        },
{
    match command {
        Command::WriteBlock(address, value) => {
            lemma_block_round_trip(value);
            assert(command.frame().skip(2) =~= le_bytes(value as nat, 4));
        },
        _ => {},
    }
}

} // verus!
