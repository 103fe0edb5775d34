//! Write-back cache over a tag's memory.
//!
//! A block is read from the tag the first time it is asked for. From then on
//! the cache holds two values for it: the one the tag holds and the one the
//! caller has made of it. A block is dirty when the two differ, and
//! [`Srix4kCached::sync`] writes the dirty blocks back, lowest address first.

use vstd::prelude::*;
use crate::laws::lemma_block_writes_grow;
use crate::laws::lemma_dirty_block_is_written;
use crate::laws::lemma_loaded_keeps_wf;
use crate::laws::lemma_uid_loaded_keeps_wf;
use crate::laws::lemma_written_keeps_wf;
use crate::mem::BLOCK_COUNT;
use crate::mem::SYSTEM_ADDR;
use crate::model::block_writes;
use crate::model::borrowed;
use crate::model::is_block_address;
use crate::model::loaded;
use crate::model::sends;
use crate::model::sent_ok;
use crate::model::synchronized;
use crate::model::uid_loaded;
use crate::model::Model;
use crate::model::Slot;
use crate::tag::attempt;
use crate::tag::block_on_tag;
use crate::tag::lemma_connected_shows_nothing;
use crate::tag::Error;
use crate::tag::Srix4k;
use crate::transport::Link;
use crate::transport::Transport;

verus! {

/// A tag whose blocks are read once and written back on demand.
pub struct Srix4kCached<T: Transport> {
    /// The general blocks, by address.
    eeprom: [Slot; BLOCK_COUNT],
    /// The system block.
    system: Slot,
    /// The UID.
    uid: Option<u64>,
    /// Connected tag.
    tag: Srix4k<T>,
}

impl<T: Transport> View for Srix4kCached<T> {
    type V = Model<T::Error>;

    closed spec fn view(&self) -> Model<T::Error> {
        Model {
            eeprom: self.eeprom@,
            system: self.system,
            uid: self.uid,
            transcript: self.tag.transcript(),
        }
    }
}

impl<T: Transport> Srix4kCached<T> {
    /// What holds of every cache between calls.
    pub open spec fn inv(&self) -> bool {
        self@.wf()
    }

    /// Looks for a tag, selects it, and starts with nothing cached.
    ///
    /// The calls are those of one connection attempt, as
    /// [`attempted`](crate::tag::attempted) describes it, on a transport of
    /// which nothing was asked before: a cache comes back exactly if the
    /// attempt succeeded, and the error of the attempt otherwise.
    pub fn connect_from(device: T) -> (cached: Result<Srix4kCached<T>, Error<T::Error>>)
        ensures
            cached matches Ok(tag) ==> tag.inv() && tag@.fresh(),
            cached matches Err(e) ==> e is Connect,
    {
        let mut link = Link::new(device);
        match attempt(&mut link) {
            Ok(()) => {
                let cached = Srix4kCached {
                    eeprom: [Slot::Unknown; BLOCK_COUNT],
                    system: Slot::Unknown,
                    uid: None,
                    tag: Srix4k::over(link),
                };
                proof {
                    assert(cached@.eeprom =~= Seq::new(BLOCK_COUNT as nat, |i: int| Slot::Unknown));
                    assert forall|address: u8| is_block_address(address) implies cached@.slot(
                        address,
                    ).agrees_with(#[trigger] block_on_tag(cached@.transcript, address)) by {
                        lemma_connected_shows_nothing(cached@.transcript, address);
                    }
                    lemma_connected_shows_nothing(cached@.transcript, 0);
                }
                Ok(cached)
            },
            Err(e) => Err(e),
        }
    }

    /// Returns the block at address `i`, reading it from the tag on first use.
    pub fn eeprom_get(&mut self, i: usize) -> (block: Result<u32, Error<T::Error>>)
        requires
            old(self).inv(),
            i < BLOCK_COUNT,
        ensures
            final(self).inv(),
            loaded(old(self)@, final(self)@, i as u8, block),
    {
        let block = match self.eeprom[i] {
            Slot::Known { original, current } => Ok(current),
            Slot::Unknown => {
                match self.tag.send_read_block(i as u8) {
                    Ok(value) => {
                        self.eeprom[i] = Slot::Known { original: value, current: value };
                        Ok(value)
                    },
                    Err(e) => Err(e),
                }
            },
        };
        proof {
            lemma_loaded_keeps_wf(old(self)@, self@, i as u8, block);
        }
        block
    }

    /// Returns the block at address `i` for the caller to change, reading it
    /// from the tag on first use. Whatever the caller leaves in it is the
    /// block's current value from then on.
    pub fn eeprom_get_mut(&mut self, i: usize) -> (block: Result<&mut u32, Error<T::Error>>)
        requires
            old(self).inv(),
            i < BLOCK_COUNT,
        ensures
            final(self).inv(),
            match block {
                Ok(current) => borrowed(
                    old(self)@,
                    final(self)@,
                    i as u8,
                    *current,
                    *final(current),
                ),
                Err(e) => loaded(old(self)@, final(self)@, i as u8, Err(e)),
            },
    {
        if let Slot::Unknown = self.eeprom[i] {
            match self.tag.send_read_block(i as u8) {
                Ok(value) => {
                    self.eeprom[i] = Slot::Known { original: value, current: value };
                },
                Err(e) => {
                    proof {
                        lemma_loaded_keeps_wf(old(self)@, self@, i as u8, Err(e));
                    }
                    return Err(e);
                },
            }
        }
        proof {
            lemma_loaded_keeps_wf(old(self)@, self@, i as u8, Ok(self@.slot(i as u8)->current));
        }
        match &mut self.eeprom[i] {
            Slot::Known { original, current } => Ok(current),
            Slot::Unknown => vstd::pervasive::unreached(),
        }
    }

    /// Returns the system block, reading it from the tag on first use.
    pub fn system_get(&mut self) -> (block: Result<u32, Error<T::Error>>)
        requires
            old(self).inv(),
        ensures
            final(self).inv(),
            loaded(old(self)@, final(self)@, SYSTEM_ADDR as u8, block),
    {
        let block = match self.system {
            Slot::Known { original, current } => Ok(current),
            Slot::Unknown => {
                match self.tag.send_read_block(SYSTEM_ADDR as u8) {
                    Ok(value) => {
                        self.system = Slot::Known { original: value, current: value };
                        Ok(value)
                    },
                    Err(e) => Err(e),
                }
            },
        };
        proof {
            lemma_loaded_keeps_wf(old(self)@, self@, SYSTEM_ADDR as u8, block);
        }
        block
    }

    /// Returns the system block for the caller to change, reading it from
    /// the tag on first use. Whatever the caller leaves in it is the block's
    /// current value from then on.
    pub fn system_get_mut(&mut self) -> (block: Result<&mut u32, Error<T::Error>>)
        requires
            old(self).inv(),
        ensures
            final(self).inv(),
            match block {
                Ok(current) => borrowed(
                    old(self)@,
                    final(self)@,
                    SYSTEM_ADDR as u8,
                    *current,
                    *final(current),
                ),
                Err(e) => loaded(old(self)@, final(self)@, SYSTEM_ADDR as u8, Err(e)),
            },
    {
        if let Slot::Unknown = self.system {
            match self.tag.send_read_block(SYSTEM_ADDR as u8) {
                Ok(value) => {
                    self.system = Slot::Known { original: value, current: value };
                },
                Err(e) => {
                    proof {
                        lemma_loaded_keeps_wf(old(self)@, self@, SYSTEM_ADDR as u8, Err(e));
                    }
                    return Err(e);
                },
            }
        }
        proof {
            lemma_loaded_keeps_wf(old(self)@, self@, SYSTEM_ADDR as u8, Ok(self@.system->current));
        }
        match &mut self.system {
            Slot::Known { original, current } => Ok(current),
            Slot::Unknown => vstd::pervasive::unreached(),
        }
    }

    /// Returns the tag's UID, asking the tag on first use.
    pub fn uid_get(&mut self) -> (uid: Result<u64, Error<T::Error>>)
        requires
            old(self).inv(),
        ensures
            final(self).inv(),
            uid_loaded(old(self)@, final(self)@, uid),
    {
        let uid = match self.uid {
            Some(uid) => Ok(uid),
            None => {
                match self.tag.send_get_uid() {
                    Ok(uid) => {
                        self.uid = Some(uid);
                        Ok(uid)
                    },
                    Err(e) => Err(e),
                }
            },
        };
        proof {
            lemma_uid_loaded_keeps_wf(old(self)@, self@, uid);
        }
        uid
    }

    /// Writes the dirty blocks to the tag, lowest address first and the
    /// system block last, and stops at the first write that fails. A block
    /// whose write succeeded is clean from then on, so calling again after a
    /// failure takes up the work at the block that failed.
    pub fn sync(&mut self) -> (done: Result<(), Error<T::Error>>)
        requires
            old(self).inv(),
        ensures
            final(self).inv(),
            synchronized(old(self)@, final(self)@, done),
    {
        let ghost before = self@;
        let ghost start = before.transcript.len() as int;
        let mut i: usize = 0;
        while i < BLOCK_COUNT
            invariant
                i <= BLOCK_COUNT,
                before == old(self)@,
                before.wf(),
                self@.wf(),
                start == before.transcript.len(),
                self.system == before.system,
                self.uid == before.uid,
                forall|k: int| 0 <= k < i ==> self.eeprom@[k] == before.eeprom[k].synced(),
                forall|k: int| i <= k < BLOCK_COUNT ==> self.eeprom@[k] == before.eeprom[k],
                self.tag.transcript().len() == start + block_writes(before.eeprom, i as nat).len(),
                self.tag.transcript().take(start) =~= before.transcript,
                forall|j: int|
                    0 <= j < block_writes(before.eeprom, i as nat).len() ==> {
                        &&& sends(
                            #[trigger] self.tag.transcript()[start + j],
                            block_writes(before.eeprom, i as nat)[j],
                        )
                        &&& sent_ok(self.tag.transcript()[start + j])
                    },
            decreases BLOCK_COUNT - i,
        {
            if let Slot::Known { original, current } = self.eeprom[i] {
                if original != current {
                    let ghost earlier = self.tag.transcript();
                    let ghost unsent = self@;
                    let sent = self.tag.send_write_block(i as u8, current);
                    proof {
                        let now = self.tag.transcript();
                        assert(now.take(start) =~= earlier.take(start));
                        assert forall|j: int|
                            0 <= j < block_writes(before.eeprom, i as nat).len() implies {
                            &&& sends(
                                #[trigger] now[start + j],
                                block_writes(before.eeprom, (i + 1) as nat)[j],
                            )
                            &&& sent_ok(now[start + j])
                        } by {
                            assert(now[start + j] == earlier[start + j]);
                        }
                    }
                    match sent {
                        Ok(()) => {
                            self.eeprom[i] = Slot::Known { original: current, current };
                            proof {
                                lemma_written_keeps_wf(unsent, self@, i as u8, sent);
                            }
                        },
                        Err(e) => {
                            proof {
                                lemma_written_keeps_wf(unsent, self@, i as u8, sent);
                                lemma_stopped_at_block(before, self@, i as nat);
                                let now = self.tag.transcript();
                                let due = before.pending_writes();
                                let count = block_writes(before.eeprom, i as nat).len();
                                assert forall|j: int| 0 <= j < count + 1 implies sends(
                                    #[trigger] now[start + j],
                                    due[j],
                                ) by {
                                    if j < count {
                                        assert(due.take(count as int)[j] == due[j]);
                                    } else {
                                        assert(now[start + j] == now.last());
                                    }
                                }
                            }
                            return Err(e);
                        },
                    }
                }
            }
            i += 1;
        }
        if let Slot::Known { original, current } = self.system {
            if original != current {
                let ghost earlier = self.tag.transcript();
                let ghost unsent = self@;
                let sent = self.tag.send_write_block(SYSTEM_ADDR as u8, current);
                proof {
                    let now = self.tag.transcript();
                    assert(now.take(start) =~= earlier.take(start));
                    assert forall|j: int|
                        0 <= j < block_writes(before.eeprom, BLOCK_COUNT as nat).len() implies {
                        &&& sends(#[trigger] now[start + j], before.pending_writes()[j])
                        &&& sent_ok(now[start + j])
                    } by {
                        assert(now[start + j] == earlier[start + j]);
                    }
                }
                match sent {
                    Ok(()) => {
                        self.system = Slot::Known { original: current, current };
                        proof {
                            lemma_written_keeps_wf(unsent, self@, SYSTEM_ADDR as u8, sent);
                        }
                    },
                    Err(e) => {
                        proof {
                            lemma_written_keeps_wf(unsent, self@, SYSTEM_ADDR as u8, sent);
                            lemma_stopped_at_system(before, self@);
                            let now = self.tag.transcript();
                            let due = before.pending_writes();
                            let count = block_writes(before.eeprom, BLOCK_COUNT as nat).len();
                            assert forall|j: int| 0 <= j < count + 1 implies sends(
                                #[trigger] now[start + j],
                                due[j],
                            ) by {
                                if j == count {
                                    assert(now[start + j] == now.last());
                                }
                            }
                        }
                        return Err(e);
                    },
                }
            }
        }
        proof {
            lemma_all_written(before, self@);
        }
        Ok(())
    }
}

/// The state reached when the write of the dirty block `i` has failed,
/// after every dirty block below it was written, is that of a
/// synchronization that made one write more than it completed.
proof fn lemma_stopped_at_block<E>(before: Model<E>, after: Model<E>, i: nat)
    requires
        before.wf(),
        i < BLOCK_COUNT,
        before.eeprom[i as int].is_dirty(),
        after.system == before.system,
        after.uid == before.uid,
        after.eeprom.len() == BLOCK_COUNT,
        forall|k: int| 0 <= k < i ==> after.eeprom[k] == before.eeprom[k].synced(),
        forall|k: int| i <= k < BLOCK_COUNT ==> after.eeprom[k] == before.eeprom[k],
    ensures
        after =~= before.flushed(block_writes(before.eeprom, i).len()).with_transcript(
            after.transcript,
        ),
        block_writes(before.eeprom, i).len() < before.pending_writes().len(),
        before.pending_writes().take(block_writes(before.eeprom, i).len() as int)
            == block_writes(before.eeprom, i),
        before.pending_writes()[block_writes(before.eeprom, i).len() as int]
            == before.eeprom[i as int].due(i as u8)[0],
{
    let count = block_writes(before.eeprom, i).len();
    let total = block_writes(before.eeprom, BLOCK_COUNT as nat);
    lemma_dirty_block_is_written(before.eeprom, i, BLOCK_COUNT as nat);
    lemma_block_writes_grow(before.eeprom, i, BLOCK_COUNT as nat);
    assert(before.pending_writes().take(count as int) =~= total.take(count as int));
    assert forall|k: int| 0 <= k < BLOCK_COUNT implies after.eeprom[k] == before.flushed(
        count,
    ).eeprom[k] by {
        if k < i {
            if before.eeprom[k].is_dirty() {
                lemma_dirty_block_is_written(before.eeprom, k as nat, i);
            }
        } else {
            lemma_block_writes_grow(before.eeprom, i, k as nat);
        }
    }
}

/// The state reached when the write of the dirty system block has failed,
/// after every dirty general block was written.
proof fn lemma_stopped_at_system<E>(before: Model<E>, after: Model<E>)
    requires
        before.wf(),
        before.system.is_dirty(),
        after.system == before.system,
        after.uid == before.uid,
        after.eeprom.len() == BLOCK_COUNT,
        forall|k: int| 0 <= k < BLOCK_COUNT ==> after.eeprom[k] == before.eeprom[k].synced(),
    ensures
        after =~= before.flushed(
            block_writes(before.eeprom, BLOCK_COUNT as nat).len(),
        ).with_transcript(after.transcript),
{
    let count = block_writes(before.eeprom, BLOCK_COUNT as nat).len();
    assert forall|k: int| 0 <= k < BLOCK_COUNT implies after.eeprom[k] == before.flushed(
        count,
    ).eeprom[k] by {
        lemma_block_writes_grow(before.eeprom, k as nat, BLOCK_COUNT as nat);
        if before.eeprom[k].is_dirty() {
            lemma_dirty_block_is_written(before.eeprom, k as nat, BLOCK_COUNT as nat);
        }
    }
}

/// The state reached when every pending write has succeeded.
proof fn lemma_all_written<E>(before: Model<E>, after: Model<E>)
    requires
        before.wf(),
        after.system == before.system.synced(),
        after.uid == before.uid,
        after.eeprom.len() == BLOCK_COUNT,
        forall|k: int| 0 <= k < BLOCK_COUNT ==> after.eeprom[k] == before.eeprom[k].synced(),
    ensures
        after =~= before.flushed(before.pending_writes().len()).with_transcript(
            after.transcript,
        ),
{
    let count = before.pending_writes().len();
    assert forall|k: int| 0 <= k < BLOCK_COUNT implies after.eeprom[k] == before.flushed(
        count,
    ).eeprom[k] by {
        lemma_block_writes_grow(before.eeprom, k as nat, BLOCK_COUNT as nat);
        if before.eeprom[k].is_dirty() {
            lemma_dirty_block_is_written(before.eeprom, k as nat, BLOCK_COUNT as nat);
        }
    }
}

} // verus!
