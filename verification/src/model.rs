//! The cache as contracts see it.
//!
//! A [`Model`] holds what the cache knows of each block, the UID, and the
//! transcript of the session. The relations of this module say how each
//! operation of the cache changes the model.

use vstd::prelude::*;
use crate::codec::Command;
use crate::codec::OPCODE_WRITE_BLOCK;
use crate::mem::BLOCK_COUNT;
use crate::mem::SYSTEM_ADDR;
use crate::tag::block_on_tag;
use crate::tag::connected;
use crate::tag::gets_uid;
use crate::tag::reads_block;
use crate::tag::uid_on_tag;
use crate::tag::Error;
use crate::transport::Exchange;
use crate::transport::Timeout;

verus! {

/// What the cache knows of one block.
#[derive(Clone, Copy, Debug, PartialEq, Eq, Structural)]
pub enum Slot {
    /// Never read from the tag in this session.
    Unknown,
    /// Read from the tag: `original` is what the tag holds and `current` is
    /// what the caller has made of it.
    Known { original: u32, current: u32 },
}

impl Slot {
    /// The caller has changed the block and the tag does not have the change yet.
    pub open spec fn is_dirty(self) -> bool {
        self matches Slot::Known { original, current } && original != current
    }

    /// The slot once the tag holds its current value.
    pub open spec fn synced(self) -> Slot {
        match self {
            Slot::Unknown => Slot::Unknown,
            Slot::Known { original, current } => Slot::Known { original: current, current },
        }
    }

    /// The slot with `value` for its current value; an unknown slot stays unknown.
    pub open spec fn with_current(self, value: u32) -> Slot {
        match self {
            Slot::Unknown => Slot::Unknown,
            Slot::Known { original, current } => Slot::Known { original, current: value },
        }
    }

    /// The slot fits what a transcript shows of its block: an unknown slot
    /// when the transcript shows nothing, and otherwise a slot whose original
    /// value is the one shown.
    pub open spec fn agrees_with(self, shown: Option<u32>) -> bool {
        match self {
            Slot::Unknown => shown is None,
            Slot::Known { original, current } => shown == Some(original),
        }
    }

    /// The write that this slot, as the block at `address`, calls for: one
    /// write of its current value if it is dirty, none otherwise.
    pub open spec fn due(self, address: u8) -> Seq<Command> {
        match self {
            Slot::Unknown => Seq::empty(),
            Slot::Known { original, current } => if original != current {
                seq![Command::WriteBlock(address, current)]
            } else {
                Seq::empty()
            },
        }
    }
}

/// The writes that the first `n` blocks of `eeprom` call for, lowest address first.
pub open spec fn block_writes(eeprom: Seq<Slot>, n: nat) -> Seq<Command>
    decreases n,
{
    if n == 0 {
        Seq::empty()
    } else {
        block_writes(eeprom, (n - 1) as nat) + eeprom[n - 1].due((n - 1) as u8)
    }
}

/// The general blocks once the first `count` of their writes have reached
/// the tag: the blocks they wrote are clean and every other block is as it was.
pub open spec fn flushed_blocks(eeprom: Seq<Slot>, count: nat) -> Seq<Slot> {
    Seq::new(
        eeprom.len(),
        |i: int|
            if block_writes(eeprom, i as nat).len() < count {
                eeprom[i].synced()
            } else {
                eeprom[i]
            },
    )
}

/// The addresses that name a block: the general blocks and the system block.
pub open spec fn is_block_address(address: u8) -> bool {
    address < BLOCK_COUNT || address == SYSTEM_ADDR
}

/// The cache as contracts see it.
#[verifier::ext_equal]
pub struct Model<E> {
    /// The general blocks, by address.
    pub eeprom: Seq<Slot>,
    /// The system block.
    pub system: Slot,
    /// The tag's UID, once it has been read.
    pub uid: Option<u64>,
    /// Every call of the transport made so far, oldest first.
    pub transcript: Seq<Exchange<E>>,
}

impl<E> Model<E> {
    /// The slot of the block at `address`: a general block below
    /// `BLOCK_COUNT`, the system block otherwise.
    pub open spec fn slot(self, address: u8) -> Slot {
        if address < BLOCK_COUNT {
            self.eeprom[address as int]
        } else {
            self.system
        }
    }

    /// This model with `slot` for the block at `address`.
    pub open spec fn with_slot(self, address: u8, slot: Slot) -> Model<E> {
        if address < BLOCK_COUNT {
            Model { eeprom: self.eeprom.update(address as int, slot), ..self }
        } else {
            Model { system: slot, ..self }
        }
    }

    /// This model with `transcript` for its transcript.
    pub open spec fn with_transcript(self, transcript: Seq<Exchange<E>>) -> Model<E> {
        Model { transcript, ..self }
    }

    /// Nothing has been read yet and the session has just connected.
    pub open spec fn fresh(self) -> bool {
        &&& self.eeprom == Seq::new(BLOCK_COUNT as nat, |i: int| Slot::Unknown)
        &&& self.system == Slot::Unknown
        &&& self.uid is None
        &&& connected(self.transcript)
    }

    /// The cache and the transcript tell the same story: a block is known
    /// exactly when it was read, its original value is the value last read
    /// from the tag or written to it, and the UID is the one the tag gave.
    pub open spec fn coherent(self) -> bool {
        &&& forall|address: u8|
            is_block_address(address) ==> self.slot(address).agrees_with(
                #[trigger] block_on_tag(self.transcript, address),
            )
        &&& self.uid == uid_on_tag(self.transcript)
    }

    /// The model has a slot for each general block and is coherent.
    pub open spec fn wf(self) -> bool {
        &&& self.eeprom.len() == BLOCK_COUNT
        &&& self.coherent()
    }

    /// The writes that bring the tag up to date, in the order in which they
    /// are made: the dirty general blocks, lowest address first, then the
    /// system block if it is dirty.
    pub open spec fn pending_writes(self) -> Seq<Command> {
        block_writes(self.eeprom, BLOCK_COUNT as nat) + self.system.due(SYSTEM_ADDR as u8)
    }

    /// Where the write of the block at `address` stands among the pending
    /// writes, if the block is dirty: behind the writes of the dirty blocks
    /// below it.
    pub open spec fn write_index(self, address: u8) -> nat {
        if address < BLOCK_COUNT {
            block_writes(self.eeprom, address as nat).len()
        } else {
            block_writes(self.eeprom, BLOCK_COUNT as nat).len()
        }
    }

    /// This model once the first `count` pending writes have reached the
    /// tag: the blocks they wrote are clean and every other block is as it was.
    pub open spec fn flushed(self, count: nat) -> Model<E> {
        Model {
            eeprom: flushed_blocks(self.eeprom, count),
            system: if block_writes(self.eeprom, BLOCK_COUNT as nat).len() < count {
                self.system.synced()
            } else {
                self.system
            },
            ..self
        }
    }
}

/// The exchange is a write of `command` that waits for the tag without limit.
pub open spec fn sends<E>(exchange: Exchange<E>, command: Command) -> bool {
    exchange matches Exchange::Send { frame, timeout, .. } && frame == command.frame() && timeout
        == Timeout::Never
}

/// The exchange carries a write to the block at `address`.
pub open spec fn writes_to<E>(exchange: Exchange<E>, address: u8) -> bool {
    exchange matches Exchange::Send { frame, .. } && frame.len() == 6 && frame[0]
        == OPCODE_WRITE_BLOCK && frame[1] == address
}

/// The exchange is a write that succeeded.
pub open spec fn sent_ok<E>(exchange: Exchange<E>) -> bool {
    exchange matches Exchange::Send { outcome: Ok(_), .. }
}

/// A synchronization that takes `before` to `after` and yields `result`.
///
/// The pending writes go out in order, one exchange each, until one fails or
/// none is left. Each block whose write succeeded is clean afterwards; the
/// block whose write failed and those behind it are as they were. The result
/// is the failure, if there was one.
pub open spec fn synchronized<E>(
    before: Model<E>,
    after: Model<E>,
    result: Result<(), Error<E>>,
) -> bool {
    let due = before.pending_writes();
    let made = after.transcript.len() - before.transcript.len();
    let done = if result is Ok {
        made
    } else {
        made - 1
    };
    &&& 0 <= done <= made <= due.len()
    &&& after.transcript.take(before.transcript.len() as int) =~= before.transcript
    &&& forall|j: int|
        0 <= j < made ==> sends(#[trigger] after.transcript[before.transcript.len() + j], due[j])
    &&& forall|j: int|
        0 <= j < done ==> sent_ok(#[trigger] after.transcript[before.transcript.len() + j])
    &&& match result {
        Ok(_) => made == due.len(),
        Err(e) => after.transcript.last() matches Exchange::Send { outcome: Err(cause), .. } && e
            == Error::Transport(cause),
    }
    &&& after =~= before.flushed(done as nat).with_transcript(after.transcript)
}

/// An access to the block at `address` that takes `before` to `after` and
/// yields `result`: a known block is answered from the cache; an unknown one
/// is read from the tag, once, and is known from then on if the read succeeds.
pub open spec fn loaded<E>(
    before: Model<E>,
    after: Model<E>,
    address: u8,
    result: Result<u32, Error<E>>,
) -> bool {
    match before.slot(address) {
        Slot::Known { original, current } => after =~= before && result == Ok::<u32, Error<E>>(
            current,
        ),
        Slot::Unknown => {
            &&& reads_block(before.transcript, after.transcript, address, result)
            &&& after =~= (match result {
                Ok(value) => before.with_slot(
                    address,
                    Slot::Known { original: value, current: value },
                ),
                Err(_) => before,
            }).with_transcript(after.transcript)
        },
    }
}

/// A loan of the block at `address` that takes `before` to `after`: the block
/// is read from the tag if it was unknown, the caller is lent its current
/// value `lent`, and what the caller leaves in its place, `left`, is the
/// block's current value afterwards. The block's original value is the one
/// the tag holds, whatever the caller leaves.
pub open spec fn borrowed<E>(
    before: Model<E>,
    after: Model<E>,
    address: u8,
    lent: u32,
    left: u32,
) -> bool {
    match before.slot(address) {
        Slot::Known { original, current } => {
            &&& lent == current
            &&& after =~= before.with_slot(address, Slot::Known { original, current: left })
        },
        Slot::Unknown => {
            &&& reads_block(
                before.transcript,
                after.transcript,
                address,
                Ok::<u32, Error<E>>(lent),
            )
            &&& after =~= before.with_slot(
                address,
                Slot::Known { original: lent, current: left },
            ).with_transcript(after.transcript)
        },
    }
}

/// An access to the UID that takes `before` to `after` and yields `result`:
/// a known UID is answered from the cache; otherwise the tag is asked, once,
/// and the UID is known from then on if the request succeeds.
pub open spec fn uid_loaded<E>(
    before: Model<E>,
    after: Model<E>,
    result: Result<u64, Error<E>>,
) -> bool {
    match before.uid {
        Some(uid) => after =~= before && result == Ok::<u64, Error<E>>(uid),
        None => {
            &&& gets_uid(before.transcript, after.transcript, result)
            &&& after =~= (Model {
                uid: match result {
                    Ok(uid) => Some(uid),
                    Err(_) => None,
                },
                transcript: after.transcript,
                ..before
            })
        },
    }
}

} // verus!
