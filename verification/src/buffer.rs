//! A growable byte window with a readable and a writable region.

use vstd::prelude::*;

verus! {

/// Upper bound on the storage that any buffer will grow to.
pub const MAX_CAPACITY: usize = 0x7fff_ffff;

/// Why a buffer operation was refused.
#[derive(Clone, Copy, Debug, PartialEq, Eq)]
pub enum BufferError {
    /// More bytes were asked for than the readable region holds.
    Overrun,
    /// The storage would have to grow beyond the buffer's limit.
    CapacityExceeded,
}

/// Contiguous storage split by two cursors into consumed bytes, unread data
/// and unwritten space.
#[derive(Debug, PartialEq)]
pub struct Buffer {
    memory: Vec<u8>,
    position: usize,
    end: usize,
    limit: usize,
}

impl Buffer {
    /// The cursors are in order and inside the storage, and the limit is
    /// within `MAX_CAPACITY`.
    pub closed spec fn wf(self) -> bool {
        self.position <= self.end <= self.memory@.len() && self.limit <= MAX_CAPACITY
    }

    /// The unread bytes, oldest first.
    pub closed spec fn unread(self) -> Seq<u8> {
        self.memory@.subrange(self.position as int, self.end as int)
    }

    /// The bytes of the writable region, as they currently stand.
    pub closed spec fn unwritten(self) -> Seq<u8> {
        self.memory@.subrange(self.end as int, self.memory@.len() as int)
    }

    /// Number of bytes that lie before the read cursor.
    pub closed spec fn consumed(self) -> nat {
        self.position as nat
    }

    /// The size beyond which the storage does not grow.
    pub closed spec fn limit(self) -> nat {
        self.limit as nat
    }

    /// Size of the storage.
    pub open spec fn size(self) -> nat {
        self.consumed() + self.unread().len() + self.unwritten().len()
    }

    /// Whether `additional` more bytes can be taken: they fit behind the
    /// data as it stands, or the data and they fit within the limit.
    pub open spec fn has_room(self, additional: nat) -> bool {
        self.unwritten().len() >= additional || self.unread().len() + additional <= self.limit()
    }

    /// The size of the storage once room was made for data of `needed`
    /// bytes in all: as it is where that is enough, else doubled, up to the
    /// limit, or just what is needed where the double is too small.
    pub open spec fn grown(capacity: nat, needed: nat, limit: nat) -> nat {
        let doubled = if 2 * capacity <= limit {
            2 * capacity
        } else {
            limit
        };
        if capacity >= needed {
            capacity
        } else if doubled >= needed {
            doubled
        } else {
            needed
        }
    }

    /// A buffer with `capacity` bytes of unwritten space and no data, that
    /// may grow up to `MAX_CAPACITY`.
    pub fn with_capacity(capacity: usize) -> (buffer: Buffer)
        ensures
            buffer.wf(),
            buffer.unread() == Seq::<u8>::empty(),
            buffer.unwritten().len() == capacity,
            buffer.consumed() == 0,
            buffer.limit() == MAX_CAPACITY,
    {
        Buffer::with_limit(capacity, MAX_CAPACITY)
    }

    /// A buffer with `capacity` bytes of unwritten space and no data, that
    /// may grow up to `limit` bytes, and never beyond `MAX_CAPACITY`.
    pub fn with_limit(capacity: usize, limit: usize) -> (buffer: Buffer)
        ensures
            buffer.wf(),
            buffer.unread() == Seq::<u8>::empty(),
            buffer.unwritten().len() == capacity,
            buffer.consumed() == 0,
            buffer.limit() == if limit <= MAX_CAPACITY {
                limit
            } else {
                MAX_CAPACITY
            },
    {
        let mut memory: Vec<u8> = Vec::new();
        while memory.len() < capacity
            invariant
                memory@.len() <= capacity,
            decreases capacity - memory@.len(),
        {
            memory.push(0u8);
        }
        let limit: usize = if limit <= MAX_CAPACITY {
            limit
        } else {
            MAX_CAPACITY
        };
        Buffer { memory, position: 0, end: 0, limit }
    }

    /// Number of unread bytes.
    pub fn available_data(&self) -> (n: usize)
        requires
            self.wf(),
        ensures
            n == self.unread().len(),
    {
        self.end - self.position
    }

    /// Number of bytes that can be written before the storage has to move.
    pub fn available_space(&self) -> (n: usize)
        requires
            self.wf(),
        ensures
            n == self.unwritten().len(),
    {
        self.memory.len() - self.end
    }

    /// Total size of the storage.
    pub fn capacity(&self) -> (n: usize)
        requires
            self.wf(),
        ensures
            n == self.size(),
    {
        self.memory.len()
    }

    /// The unread region.
    pub fn data(&self) -> (bytes: &[u8])
        requires
            self.wf(),
        ensures
            bytes@ == self.unread(),
    {
        vstd::slice::slice_subrange(self.memory.as_slice(), self.position, self.end)
    }

    /// Commits the first `count` bytes of the writable region as data.
    pub fn fill(&mut self, count: usize)
        requires
            old(self).wf(),
            count <= old(self).unwritten().len(),
        ensures
            final(self).wf(),
            final(self).unread() == data_after_op(
                old(self).unread(),
                BufferOp::Fill(old(self).unwritten().subrange(0, count as int)),
            ),
            final(self).unwritten() == old(self).unwritten().subrange(
                count as int,
                old(self).unwritten().len() as int,
            ),
            final(self).consumed() == old(self).consumed(),
            final(self).limit() == old(self).limit(),
    {
        proof {
            assert(self.memory@.len() == self.memory.len());
        }
        self.end = self.end + count;
        assert(self.unread() =~= old(self).unread() + old(self).unwritten().subrange(
            0,
            count as int,
        ));
        assert(self.unwritten() =~= old(self).unwritten().subrange(
            count as int,
            old(self).unwritten().len() as int,
        ));
    }

    /// Drops the first `count` unread bytes, or refuses and changes nothing
    /// when fewer are unread.
    pub fn consume(&mut self, count: usize) -> (outcome: Result<(), BufferError>)
        requires
            old(self).wf(),
        ensures
            final(self).wf(),
            final(self).unread() == data_after_op(
                old(self).unread(),
                BufferOp::Consume(count as nat),
            ),
            final(self).unwritten() == old(self).unwritten(),
            final(self).limit() == old(self).limit(),
            count <= old(self).unread().len() ==> outcome == Ok::<(), BufferError>(())
                && final(self).consumed() == old(self).consumed() + count,
            count > old(self).unread().len() ==> outcome == Err::<(), BufferError>(
                BufferError::Overrun,
            ) && *final(self) == *old(self),
    {
        if count > self.end - self.position {
            return Err(BufferError::Overrun);
        }
        self.position = self.position + count;
        assert(self.unread() =~= old(self).unread().subrange(
            count as int,
            old(self).unread().len() as int,
        ));
        Ok(())
    }

    /// Makes room for `additional` more bytes behind the data. A buffer
    /// that has the room stays as it is. Else the consumed bytes are given
    /// up, and the storage grows where that is not enough, as `grown` says.
    /// Where the data and the room asked for would not fit within the
    /// limit, nothing changes. Unread data is never touched.
    pub fn reserve(&mut self, additional: usize) -> (outcome: Result<(), BufferError>)
        requires
            old(self).wf(),
        ensures
            final(self).wf(),
            final(self).unread() == old(self).unread(),
            final(self).limit() == old(self).limit(),
            outcome is Ok <==> old(self).has_room(additional as nat),
            outcome is Ok ==> final(self).unwritten().len() >= additional,
            outcome is Err ==> outcome == Err::<(), BufferError>(BufferError::CapacityExceeded),
            old(self).unwritten().len() >= additional ==> *final(self) == *old(self),
            outcome is Err ==> *final(self) == *old(self),
            old(self).unwritten().len() < additional && outcome is Ok ==> final(self).consumed()
                == 0,
            old(self).unwritten().len() < additional && outcome is Ok ==> final(self).size()
                == Self::grown(
                old(self).size(),
                (old(self).unread().len() + additional) as nat,
                old(self).limit(),
            ),
    {
        proof {
            assert(self.memory@.len() == self.memory.len());
        }
        let capacity: usize = self.memory.len();
        if capacity - self.end >= additional {
            return Ok(());
        }
        let pending: usize = self.end - self.position;
        if pending > self.limit || additional > self.limit - pending {
            return Err(BufferError::CapacityExceeded);
        }
        let needed: usize = pending + additional;
        let doubled: usize = if capacity <= self.limit / 2 {
            2 * capacity
        } else {
            self.limit
        };
        let target: usize = if capacity >= needed {
            capacity
        } else if doubled >= needed {
            doubled
        } else {
            needed
        };
        let mut fresh: Vec<u8> = Vec::new();
        let mut i: usize = self.position;
        while i < self.end
            invariant
                self.position <= i <= self.end <= self.memory@.len(),
                fresh@ == self.memory@.subrange(self.position as int, i as int),
            decreases self.end - i,
        {
            fresh.push(self.memory[i]);
            i = i + 1;
            assert(fresh@ =~= self.memory@.subrange(self.position as int, i as int));
        }
        while fresh.len() < target
            invariant
                pending <= fresh@.len() <= target,
                fresh@.subrange(0, pending as int) == old(self).unread(),
            decreases target - fresh@.len(),
        {
            fresh.push(0u8);
            assert(fresh@.subrange(0, pending as int) =~= old(self).unread());
        }
        *self = Buffer { memory: fresh, position: 0, end: pending, limit: self.limit };
        Ok(())
    }

    /// The writable region. When none is left, room for one byte is made
    /// first, as `reserve` does; the region is empty only where the buffer
    /// cannot grow. Bytes written here become data once `fill` commits
    /// them.
    pub fn space(&mut self) -> (region: &mut [u8])
        requires
            old(self).wf(),
        ensures
            final(self).wf(),
            final(self).unread() == old(self).unread(),
            final(self).limit() == old(self).limit(),
            final(self).unwritten() == final(region)@,
            old(self).unwritten().len() > 0 ==> region@ == old(self).unwritten(),
            old(self).unwritten().len() > 0 ==> final(self).consumed() == old(self).consumed(),
            old(self).unwritten().len() == 0 && old(self).has_room(1) ==> final(self).consumed()
                == 0,
            old(self).unwritten().len() == 0 && old(self).has_room(1) ==> old(self).unread().len()
                + region@.len() == Self::grown(
                old(self).size(),
                (old(self).unread().len() + 1) as nat,
                old(self).limit(),
            ),
            old(self).unwritten().len() == 0 && !old(self).has_room(1) ==> region@.len() == 0,
            old(self).unwritten().len() == 0 && !old(self).has_room(1) ==> final(self).consumed()
                == old(self).consumed(),
    {
        if self.available_space() == 0 {
            let _ = self.reserve(1);
        }
        let end: usize = self.end;
        let whole = self.memory.as_mut_slice();
        let (_, tail) = whole.split_at_mut(end);
        tail
    }

    /// Appends `bytes` to the data, making room as `reserve` does. Where
    /// there is no room, nothing changes.
    pub fn write(&mut self, bytes: &[u8]) -> (outcome: Result<(), BufferError>)
        requires
            old(self).wf(),
        ensures
            final(self).wf(),
            final(self).limit() == old(self).limit(),
            outcome is Ok <==> old(self).has_room(bytes@.len()),
            outcome is Ok ==> final(self).unread() == old(self).unread() + bytes@,
            outcome is Err ==> outcome == Err::<(), BufferError>(BufferError::CapacityExceeded)
                && *final(self) == *old(self),
    {
        match self.reserve(bytes.len()) {
            Err(e) => {
                return Err(e);
            },
            Ok(()) => {},
        }
        proof {
            assert(self.memory@.len() == self.memory.len());
        }
        let ghost before = self.memory@;
        let ghost origin = self.position;
        assert(before.subrange(origin as int, self.end as int) == old(self).unread());
        let start: usize = self.end;
        let mut i: usize = 0;
        while i < bytes.len()
            invariant
                i <= bytes@.len(),
                self.end == start,
                self.position == origin <= start,
                self.limit == old(self).limit,
                start + bytes@.len() <= self.memory@.len() <= usize::MAX,
                self.memory@.len() == before.len(),
                forall|k: int| 0 <= k < start ==> self.memory@[k] == before[k],
                forall|k: int| 0 <= k < i ==> self.memory@[start + k] == bytes@[k],
            decreases bytes@.len() - i,
        {
            self.memory.set(start + i, bytes[i]);
            i = i + 1;
        }
        self.end = start + bytes.len();
        assert(self.unread() =~= before.subrange(origin as int, start as int) + bytes@);
        Ok(())
    }
}

impl Clone for Buffer {
    fn clone(&self) -> (copy: Buffer)
        ensures
            self.wf() ==> copy.wf(),
            copy.unread() == self.unread(),
            copy.unwritten() == self.unwritten(),
            copy.consumed() == self.consumed(),
            copy.limit() == self.limit(),
    {
        let memory = self.memory.clone();
        assert(memory@ =~= self.memory@);
        Buffer { memory, position: self.position, end: self.end, limit: self.limit }
    }
}

/// One step in the life of a buffer's data.
pub enum BufferOp {
    /// These bytes were written into the space and committed.
    Fill(Seq<u8>),
    /// This many bytes were asked to be consumed.
    Consume(nat),
}

/// The unread data after one step. A consume beyond the data is refused
/// and changes nothing.
pub open spec fn data_after_op(data: Seq<u8>, op: BufferOp) -> Seq<u8> {
    match op {
        BufferOp::Fill(bytes) => data + bytes,
        BufferOp::Consume(count) => if count <= data.len() {
            data.subrange(count as int, data.len() as int)
        } else {
            data
        },
    }
}

/// The unread data after a run of steps.
pub open spec fn data_after(data: Seq<u8>, ops: Seq<BufferOp>) -> Seq<u8>
    decreases ops.len(),
{
    if ops.len() == 0 {
        data
    } else {
        data_after_op(data_after(data, ops.drop_last()), ops.last())
    }
}

/// All bytes that the steps committed, in order.
pub open spec fn committed(ops: Seq<BufferOp>) -> Seq<u8>
    decreases ops.len(),
{
    if ops.len() == 0 {
        Seq::empty()
    } else {
        match ops.last() {
            BufferOp::Fill(bytes) => committed(ops.drop_last()) + bytes,
            BufferOp::Consume(count) => committed(ops.drop_last()),
        }
    }
}

/// How many bytes the steps consumed: the counts of the consumes that were
/// not refused.
pub open spec fn consumed_by(data: Seq<u8>, ops: Seq<BufferOp>) -> nat
    decreases ops.len(),
{
    if ops.len() == 0 {
        0
    } else {
        match ops.last() {
            BufferOp::Fill(bytes) => consumed_by(data, ops.drop_last()),
            BufferOp::Consume(count) => if count <= data_after(data, ops.drop_last()).len() {
                consumed_by(data, ops.drop_last()) + count
            } else {
                consumed_by(data, ops.drop_last())
            },
        }
    }
}

/// Whatever the fills and consumes, the unread data is exactly what was
/// committed and not yet consumed, in the order it was written.
pub proof fn lemma_data_is_what_was_written(data: Seq<u8>, ops: Seq<BufferOp>)
    ensures
        consumed_by(data, ops) <= data.len() + committed(ops).len(),
        data_after(data, ops) == (data + committed(ops)).subrange(
            consumed_by(data, ops) as int,
            (data.len() + committed(ops).len()) as int,
        ),
    decreases ops.len(),
{
    if ops.len() == 0 {
        assert(data_after(data, ops) =~= (data + committed(ops)).subrange(
            0,
            (data.len() + committed(ops).len()) as int,
        ));
    } else {
        lemma_data_is_what_was_written(data, ops.drop_last());
        assert(data_after(data, ops) =~= (data + committed(ops)).subrange(
            consumed_by(data, ops) as int,
            (data.len() + committed(ops).len()) as int,
        ));
    }
}

} // verus!
