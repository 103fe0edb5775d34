//! What holds of the cache, proved over its model.

use vstd::prelude::*;
use crate::codec::lemma_frame_shape;
use crate::codec::Command;
use crate::mem::BLOCK_COUNT;
use crate::model::block_writes;
use crate::model::borrowed;
use crate::model::flushed_blocks;
use crate::model::is_block_address;
use crate::model::loaded;
use crate::model::sends;
use crate::model::sent_ok;
use crate::model::synchronized;
use crate::model::uid_loaded;
use crate::model::writes_to;
use crate::model::Model;
use crate::model::Slot;
use crate::tag::block_on_tag;
use crate::tag::lemma_read_shows;
use crate::tag::lemma_uid_request_shows;
use crate::tag::lemma_write_shows;
use crate::tag::uid_on_tag;
use crate::tag::write_result;
use crate::tag::writes_block;
use crate::tag::Error;

verus! {

/// An access to a block keeps the model well formed.
pub proof fn lemma_loaded_keeps_wf<E>(
    before: Model<E>,
    after: Model<E>,
    address: u8,
    result: Result<u32, Error<E>>,
)
    requires
        before.wf(),
        is_block_address(address),
        loaded(before, after, address, result),
    ensures
        after.wf(),
{
    if before.slot(address) is Unknown {
        assert forall|other: u8| is_block_address(other) implies after.slot(other).agrees_with(
            #[trigger] block_on_tag(after.transcript, other),
        ) by {
            lemma_read_shows(before.transcript, after.transcript, address, result, other);
            assert(before.slot(other).agrees_with(block_on_tag(before.transcript, other)));
        }
        lemma_read_shows(before.transcript, after.transcript, address, result, address);
    }
}

/// Whatever the caller makes of a block's current value, the model stays
/// well formed.
pub proof fn lemma_current_is_free<E>(model: Model<E>, address: u8, value: u32)
    requires
        model.wf(),
        is_block_address(address),
    ensures
        model.with_slot(address, model.slot(address).with_current(value)).wf(),
{
    let changed = model.with_slot(address, model.slot(address).with_current(value));
    assert forall|other: u8| is_block_address(other) implies changed.slot(other).agrees_with(
        #[trigger] block_on_tag(changed.transcript, other),
    ) by {
        assert(model.slot(other).agrees_with(block_on_tag(model.transcript, other)));
    }
}

/// An access to the UID keeps the model well formed.
pub proof fn lemma_uid_loaded_keeps_wf<E>(
    before: Model<E>,
    after: Model<E>,
    result: Result<u64, Error<E>>,
)
    requires
        before.wf(),
        uid_loaded(before, after, result),
    ensures
        after.wf(),
{
    if before.uid is None {
        assert forall|other: u8| is_block_address(other) implies after.slot(other).agrees_with(
            #[trigger] block_on_tag(after.transcript, other),
        ) by {
            lemma_uid_request_shows(before.transcript, after.transcript, result, other);
            assert(before.slot(other).agrees_with(block_on_tag(before.transcript, other)));
        }
        lemma_uid_request_shows(before.transcript, after.transcript, result, 0);
    }
}

/// Writing a block's current value to the tag, and taking the block for clean
/// if the write succeeded, keeps the model well formed.
pub proof fn lemma_written_keeps_wf<E>(
    before: Model<E>,
    after: Model<E>,
    address: u8,
    result: Result<(), Error<E>>,
)
    requires
        before.wf(),
        is_block_address(address),
        before.slot(address) matches Slot::Known { current, .. } && writes_block(
            before.transcript,
            after.transcript,
            address,
            current,
            result,
        ),
        after =~= (match result {
            Ok(_) => before.with_slot(address, before.slot(address).synced()),
            Err(_) => before,
        }).with_transcript(after.transcript),
    ensures
        after.wf(),
{
    let value = before.slot(address)->current;
    assert forall|other: u8| is_block_address(other) implies after.slot(other).agrees_with(
        #[trigger] block_on_tag(after.transcript, other),
    ) by {
        lemma_write_shows(before.transcript, after.transcript, address, value, result, other);
        assert(before.slot(other).agrees_with(block_on_tag(before.transcript, other)));
    }
    lemma_write_shows(before.transcript, after.transcript, address, value, result, address);
}

/// The writes of the first `n` blocks open those of the first `m`, for `n <= m`.
pub proof fn lemma_block_writes_grow(eeprom: Seq<Slot>, n: nat, m: nat)
    requires
        n <= m,
    ensures
        block_writes(eeprom, n).len() <= block_writes(eeprom, m).len(),
        block_writes(eeprom, m).take(block_writes(eeprom, n).len() as int) == block_writes(
            eeprom,
            n,
        ),
    decreases m - n,
{
    if n < m {
        lemma_block_writes_grow(eeprom, n, (m - 1) as nat);
        let short = block_writes(eeprom, n);
        let middle = block_writes(eeprom, (m - 1) as nat);
        let long = block_writes(eeprom, m);
        assert(long.take(short.len() as int) =~= middle.take(short.len() as int));
    } else {
        assert(block_writes(eeprom, m).take(block_writes(eeprom, n).len() as int) =~= block_writes(
            eeprom,
            n,
        ));
    }
}

/// A dirty block's write is the one after the writes of the blocks below it.
pub proof fn lemma_dirty_block_is_written(eeprom: Seq<Slot>, k: nat, m: nat)
    requires
        k < m,
        eeprom[k as int].is_dirty(),
    ensures
        block_writes(eeprom, k).len() < block_writes(eeprom, m).len(),
        block_writes(eeprom, m)[block_writes(eeprom, k).len() as int] == eeprom[k as int].due(
            k as u8,
        )[0],
{
    lemma_block_writes_grow(eeprom, k + 1, m);
    let next = block_writes(eeprom, k + 1);
    assert(block_writes(eeprom, m).take(next.len() as int)[block_writes(eeprom, k).len() as int]
        == next[block_writes(eeprom, k).len() as int]);
}

/// Once the first `count` writes of the general blocks have reached the tag,
/// the writes these blocks still call for are the ones behind the first `count`.
pub proof fn lemma_block_writes_flushed(eeprom: Seq<Slot>, count: nat, n: nat)
    requires
        n <= eeprom.len(),
    ensures
        block_writes(flushed_blocks(eeprom, count), n) == if block_writes(eeprom, n).len()
            <= count {
            Seq::<Command>::empty()
        } else {
            block_writes(eeprom, n).skip(count as int)
        },
    decreases n,
{
    if n > 0 {
        lemma_block_writes_flushed(eeprom, count, (n - 1) as nat);
        let below = block_writes(eeprom, (n - 1) as nat);
        let all = block_writes(eeprom, n);
        let left = block_writes(flushed_blocks(eeprom, count), n);
        if all.len() <= count {
            assert(left =~= Seq::<Command>::empty());
        } else {
            assert(left =~= all.skip(count as int));
        }
    }
}

/// Once the first `count` pending writes have reached the tag, the pending
/// writes are the ones behind the first `count`.
pub proof fn lemma_flushed_pending<E>(model: Model<E>, count: nat)
    requires
        model.wf(),
        count <= model.pending_writes().len(),
    ensures
        model.flushed(count).pending_writes() == model.pending_writes().skip(count as int),
{
    lemma_block_writes_flushed(model.eeprom, count, BLOCK_COUNT as nat);
    assert(model.flushed(count).pending_writes() =~= model.pending_writes().skip(count as int));
}

/// A block that was accessed with success is not read again: the next access
/// makes no exchange, changes nothing and returns the same value.
pub proof fn lemma_second_access_reads_nothing<E>(
    start: Model<E>,
    middle: Model<E>,
    end: Model<E>,
    address: u8,
    first: Result<u32, Error<E>>,
    second: Result<u32, Error<E>>,
)
    requires
        start.wf(),
        is_block_address(address),
        loaded(start, middle, address, first),
        first is Ok,
        loaded(middle, end, address, second),
    ensures
        end == middle,
        end.transcript == middle.transcript,
        second == first,
        middle.transcript.len() <= start.transcript.len() + 1,
{
}

/// A loan keeps the model well formed, whatever the caller leaves.
pub proof fn lemma_borrowed_keeps_wf<E>(
    before: Model<E>,
    after: Model<E>,
    address: u8,
    lent: u32,
    left: u32,
)
    requires
        before.wf(),
        is_block_address(address),
        borrowed(before, after, address, lent, left),
    ensures
        after.wf(),
{
    let fetched = after.with_slot(address, after.slot(address).with_current(lent));
    assert(loaded(before, fetched, address, Ok(lent)));
    lemma_loaded_keeps_wf(before, fetched, address, Ok(lent));
    lemma_current_is_free(fetched, address, left);
    assert(after =~= fetched.with_slot(address, fetched.slot(address).with_current(left)));
}

/// A loan reads the block from the tag only if the block was unknown, and
/// the block is known afterwards, so that no later access reads it again.
/// A block that was not dirty before the loan is dirty after it exactly if
/// the caller left another value than the one lent. No other block changes.
pub proof fn lemma_borrowed_block<E>(
    before: Model<E>,
    after: Model<E>,
    address: u8,
    lent: u32,
    left: u32,
)
    requires
        before.wf(),
        is_block_address(address),
        borrowed(before, after, address, lent, left),
    ensures
        after.slot(address) matches Slot::Known { current, .. } && current == left,
        before.slot(address) is Known ==> after.transcript == before.transcript,
        after.transcript.len() <= before.transcript.len() + 1,
        !before.slot(address).is_dirty() ==> (after.slot(address).is_dirty() <==> left != lent),
        forall|other: u8|
            is_block_address(other) && other != address ==> after.slot(other) == before.slot(
                other,
            ),
        after.uid == before.uid,
{
}

/// A loan whose value the caller leaves as it was lent is an access: the
/// model is the one that [`loaded`] describes.
pub proof fn lemma_borrowed_and_left_alone<E>(
    before: Model<E>,
    after: Model<E>,
    address: u8,
    lent: u32,
)
    requires
        before.wf(),
        is_block_address(address),
        borrowed(before, after, address, lent, lent),
    ensures
        loaded(before, after, address, Ok(lent)),
{
}

/// A dirty block has its write among the pending writes, at its write index,
/// and the write carries the block's current value.
pub proof fn lemma_dirty_block_is_pending<E>(model: Model<E>, address: u8)
    requires
        model.wf(),
        is_block_address(address),
        model.slot(address).is_dirty(),
    ensures
        model.write_index(address) < model.pending_writes().len(),
        model.pending_writes()[model.write_index(address) as int] == Command::WriteBlock(
            address,
            model.slot(address)->current,
        ),
{
    if address < BLOCK_COUNT {
        lemma_dirty_block_is_written(model.eeprom, address as nat, BLOCK_COUNT as nat);
    }
}

/// Each write that the first `n` blocks call for is the write of a dirty
/// block among them, carries that block's current value, and stands at that
/// block's write index.
pub proof fn lemma_block_write_origin(eeprom: Seq<Slot>, n: nat, j: int)
    requires
        n <= BLOCK_COUNT,
        0 <= j < block_writes(eeprom, n).len(),
    ensures
        block_writes(eeprom, n)[j] matches Command::WriteBlock(address, value) && address < n
            && eeprom[address as int].is_dirty() && eeprom[address as int]->current == value
            && block_writes(eeprom, address as nat).len() == j,
    decreases n,
{
    let below = block_writes(eeprom, (n - 1) as nat);
    if j < below.len() {
        lemma_block_write_origin(eeprom, (n - 1) as nat, j);
    }
}

/// Each pending write is the write of a dirty block, carries that block's
/// current value, and stands at that block's write index. With
/// [`lemma_dirty_block_is_pending`]: the pending writes are one write for
/// each dirty block and none for any other block.
pub proof fn lemma_pending_write_origin<E>(model: Model<E>, j: int)
    requires
        model.wf(),
        0 <= j < model.pending_writes().len(),
    ensures
        model.pending_writes()[j] matches Command::WriteBlock(address, value) && is_block_address(
            address,
        ) && model.slot(address).is_dirty() && model.slot(address)->current == value
            && model.write_index(address) == j,
{
    if j < block_writes(model.eeprom, BLOCK_COUNT as nat).len() {
        lemma_block_write_origin(model.eeprom, BLOCK_COUNT as nat, j);
    }
}

/// A synchronization that succeeds writes each dirty block once, with its
/// current value, and writes no other block: of the exchanges it makes, the
/// one at a dirty block's write index carries that block's write, and no
/// other exchange is a write to that block.
pub proof fn lemma_sync_writes_dirty_blocks_once<E>(
    before: Model<E>,
    after: Model<E>,
    address: u8,
    j: int,
)
    requires
        before.wf(),
        synchronized(before, after, Ok(())),
        is_block_address(address),
        0 <= j < after.transcript.len() - before.transcript.len(),
    ensures
        writes_to(after.transcript[before.transcript.len() + j], address) <==> before.slot(
            address,
        ).is_dirty() && j == before.write_index(address),
        writes_to(after.transcript[before.transcript.len() + j], address) ==> sends(
            after.transcript[before.transcript.len() + j],
            Command::WriteBlock(address, before.slot(address)->current),
        ),
        before.slot(address).is_dirty() ==> before.write_index(address) < after.transcript.len()
            - before.transcript.len(),
{
    let exchange = after.transcript[before.transcript.len() + j];
    assert(sends(exchange, before.pending_writes()[j]));
    lemma_pending_write_origin(before, j);
    lemma_frame_shape(before.pending_writes()[j]);
    if before.slot(address).is_dirty() {
        lemma_dirty_block_is_pending(before, address);
    }
}

/// After a synchronization that succeeded, nothing is pending, and a second
/// synchronization makes no exchange, changes nothing and succeeds.
pub proof fn lemma_sync_twice<E>(
    start: Model<E>,
    middle: Model<E>,
    end: Model<E>,
    second: Result<(), Error<E>>,
)
    requires
        start.wf(),
        synchronized(start, middle, Ok(())),
        synchronized(middle, end, second),
    ensures
        middle.pending_writes().len() == 0,
        second is Ok,
        end.transcript == middle.transcript,
        end == middle,
{
    lemma_flushed_pending(start, start.pending_writes().len());
    assert(middle.pending_writes() == start.flushed(
        start.pending_writes().len(),
    ).pending_writes());
    assert(end.transcript =~= middle.transcript);
    assert(middle.flushed(0).eeprom =~= middle.eeprom);
}

/// What the transcript shows of a block once a synchronization has made its
/// first `k` exchanges: the block's current value if its write is among them
/// and succeeded, and otherwise what it showed before.
pub proof fn lemma_sync_shows<E>(
    before: Model<E>,
    after: Model<E>,
    result: Result<(), Error<E>>,
    k: nat,
    address: u8,
)
    requires
        before.wf(),
        synchronized(before, after, result),
        before.transcript.len() + k <= after.transcript.len(),
        is_block_address(address),
    ensures
        block_on_tag(after.transcript.take((before.transcript.len() + k) as int), address) == if {
            &&& before.slot(address).is_dirty()
            &&& before.write_index(address) < k
            &&& (result is Err ==> before.write_index(address) + 1 < after.transcript.len()
                - before.transcript.len())
        } {
            Some(before.slot(address)->current)
        } else {
            block_on_tag(before.transcript, address)
        },
        uid_on_tag(after.transcript.take((before.transcript.len() + k) as int)) == uid_on_tag(
            before.transcript,
        ),
    decreases k,
{
    let start = before.transcript.len() as int;
    let now = after.transcript.take(start + k);
    if k == 0 {
        assert(now =~= before.transcript);
    } else {
        lemma_sync_shows(before, after, result, (k - 1) as nat, address);
        let earlier = after.transcript.take(start + k - 1);
        let exchange = after.transcript[start + (k - 1)];
        assert(now.drop_last() =~= earlier);
        assert(now.last() == exchange);
        assert(sends(exchange, before.pending_writes()[k - 1]));
        lemma_pending_write_origin(before, k - 1);
        if before.slot(address).is_dirty() {
            lemma_dirty_block_is_pending(before, address);
        }
        match before.pending_writes()[k - 1] {
            Command::WriteBlock(written, value) => {
                lemma_write_shows(
                    earlier,
                    now,
                    written,
                    value,
                    write_result(exchange->Send_outcome),
                    address,
                );
                if result is Ok || k < after.transcript.len() - start {
                    assert(sent_ok(after.transcript[start + (k - 1)]));
                } else {
                    assert(exchange == after.transcript.last());
                }
            },
            _ => {},
        }
    }
}

/// A synchronization keeps the model well formed.
pub proof fn lemma_synchronized_keeps_wf<E>(
    before: Model<E>,
    after: Model<E>,
    result: Result<(), Error<E>>,
)
    requires
        before.wf(),
        synchronized(before, after, result),
    ensures
        after.wf(),
{
    let made = (after.transcript.len() - before.transcript.len()) as nat;
    assert(after.transcript.take((before.transcript.len() + made) as int) =~= after.transcript);
    assert forall|address: u8| is_block_address(address) implies after.slot(address).agrees_with(
        #[trigger] block_on_tag(after.transcript, address),
    ) by {
        lemma_sync_shows(before, after, result, made, address);
        assert(before.slot(address).agrees_with(block_on_tag(before.transcript, address)));
        if before.slot(address).is_dirty() {
            lemma_dirty_block_is_pending(before, address);
        }
    }
    lemma_sync_shows(before, after, result, made, 0);
}

/// After a synchronization that succeeded, no block is dirty.
pub proof fn lemma_sync_leaves_nothing_dirty<E>(before: Model<E>, after: Model<E>, address: u8)
    requires
        before.wf(),
        synchronized(before, after, Ok(())),
        is_block_address(address),
    ensures
        !after.slot(address).is_dirty(),
        after.slot(address) == before.slot(address).synced(),
{
    if before.slot(address).is_dirty() {
        lemma_dirty_block_is_pending(before, address);
    }
}

/// Once the UID is known it stays what it is: no operation of the cache
/// changes it.
pub proof fn lemma_known_uid_stays<E>(
    before: Model<E>,
    after: Model<E>,
    address: u8,
    block: Result<u32, Error<E>>,
    lent: u32,
    left: u32,
    uid: Result<u64, Error<E>>,
    done: Result<(), Error<E>>,
)
    requires
        before.wf(),
        before.uid is Some,
        is_block_address(address),
        loaded(before, after, address, block) || borrowed(before, after, address, lent, left)
            || uid_loaded(before, after, uid) || synchronized(before, after, done),
    ensures
        after.uid == before.uid,
{
}

/// After a synchronization that failed, the pending writes are the one that
/// failed and those behind it: trying again leaves out the writes that
/// succeeded and starts with the write that failed.
pub proof fn lemma_sync_resumes<E>(start: Model<E>, stopped: Model<E>, failure: Error<E>)
    requires
        start.wf(),
        synchronized(start, stopped, Err(failure)),
    ensures
        stopped.transcript.len() > start.transcript.len(),
        stopped.pending_writes() == start.pending_writes().skip(
            stopped.transcript.len() - start.transcript.len() - 1,
        ),
        stopped.pending_writes().len() > 0,
        sends(stopped.transcript.last(), stopped.pending_writes()[0]),
{
    let made = stopped.transcript.len() - start.transcript.len();
    lemma_flushed_pending(start, (made - 1) as nat);
    assert(stopped.pending_writes() == start.flushed((made - 1) as nat).pending_writes());
    assert(sends(
        stopped.transcript[start.transcript.len() + (made - 1)],
        start.pending_writes()[made - 1],
    ));
}

} // verus!
