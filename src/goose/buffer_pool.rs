//! A pool of MTU-sized receive buffers on a lock-free bounded queue: a
//! buffer is lent out cleared and goes back when its handle is dropped.

use vstd::prelude::*;
use std::sync::Arc;
use crossbeam_queue::ArrayQueue;

verus! {

/// The largest Ethernet frame, and the capacity of every pool buffer.
pub const BUFFER_SIZE: usize = 1518;

#[verifier::external_type_specification]
#[verifier::external_body]
#[verifier::reject_recursive_types(T)]
pub struct ExArrayQueue<T>(ArrayQueue<T>);

/// The capacity an `ArrayQueue` was created with.
pub uninterp spec fn queue_capacity(q: ArrayQueue<Vec<u8>>) -> nat;

/// Relies on `ArrayQueue::new`: an empty queue of capacity `cap`; it panics
/// on a zero capacity, and on one so large that the next power of two above
/// it overflows.
#[verifier::external_body]
fn new_queue(cap: usize) -> (r: ArrayQueue<Vec<u8>>)
    requires
        0 < cap <= usize::MAX / 2,
    ensures
        queue_capacity(r) == cap,
{
    ArrayQueue::new(cap)
}

/// Relies on `ArrayQueue::push`: gives the value back when the queue is full.
#[verifier::external_body]
fn queue_push(q: &ArrayQueue<Vec<u8>>, v: Vec<u8>) -> (r: Result<(), Vec<u8>>) {
    q.push(v)
}

/// Relies on `ArrayQueue::push`: moves the buffer out of `slot` into the
/// queue, where it is dropped if the queue is full.
#[verifier::external_body]
fn queue_push_from(q: &ArrayQueue<Vec<u8>>, slot: &mut Vec<u8>)
    opens_invariants none
    no_unwind
{
    let _ = q.push(std::mem::take(slot));
}

/// Relies on `ArrayQueue::pop`: some buffer, or `None` when the queue is empty.
#[verifier::external_body]
fn queue_pop(q: &ArrayQueue<Vec<u8>>) -> (r: Option<Vec<u8>>) {
    q.pop()
}

/// Relies on `ArrayQueue::len`: the number of queued buffers.
#[verifier::external_body]
fn queue_len(q: &ArrayQueue<Vec<u8>>) -> (r: usize) {
    q.len()
}

/// Relies on `ArrayQueue::capacity`: the capacity it was created with.
#[verifier::external_body]
fn queue_capacity_of(q: &ArrayQueue<Vec<u8>>) -> (r: usize)
    ensures
        r == queue_capacity(*q),
{
    q.capacity()
}

/// Relies on `Vec::with_capacity`: an empty vector with room for `n` bytes.
#[verifier::external_body]
fn empty_buffer(n: usize) -> (r: Vec<u8>)
    ensures
        r@.len() == 0,
{
    Vec::with_capacity(n)
}

/// A buffer lent by a `BufferPool`; dropping it returns the buffer.
pub struct PooledBuffer {
    buffer: Vec<u8>,
    pool: Arc<ArrayQueue<Vec<u8>>>,
}

impl PooledBuffer {
    /// The bytes held.
    pub closed spec fn view(&self) -> Seq<u8> {
        self.buffer@
    }

    /// The number of valid bytes.
    pub fn len(&self) -> (r: usize)
        ensures
            r == self@.len(),
    {
        self.buffer.len()
    }

    pub fn is_empty(&self) -> (r: bool)
        ensures
            r == (self@.len() == 0),
    {
        self.buffer.len() == 0
    }

    /// Sets the number of valid bytes: a shorter length drops the tail, a
    /// longer one appends zeros.
    pub fn set_len(&mut self, len: usize)
        requires
            len <= BUFFER_SIZE,
        ensures
            final(self)@.len() == len,
            forall|i: int| 0 <= i < len && i < old(self)@.len() ==> final(self)@[i] == old(self)@[i],
            forall|i: int| old(self)@.len() <= i < len ==> final(self)@[i] == 0,
    {
        if len <= self.buffer.len() {
            self.buffer.truncate(len);
        } else {
            let ghost o = self.buffer@;
            while self.buffer.len() < len
                invariant
                    o.len() <= self.buffer@.len() <= len,
                    forall|i: int| 0 <= i < o.len() ==> self.buffer@[i] == o[i],
                    forall|i: int| o.len() <= i < self.buffer@.len() ==> self.buffer@[i] == 0,
                decreases len - self.buffer@.len(),
            {
                self.buffer.push(0);
            }
        }
    }

    /// The valid bytes, for writing.
    pub fn as_mut_slice(&mut self) -> (r: &mut [u8])
        ensures
            r@ == old(self)@,
            final(self)@ == final(r)@,
    {
        self.buffer.as_mut_slice()
    }

    /// The valid bytes.
    pub fn as_slice(&self) -> (r: &[u8])
        ensures
            r@ == self@,
    {
        self.buffer.as_slice()
    }

    /// Replaces the contents with `data`.
    pub fn copy_from_slice(&mut self, data: &[u8])
        ensures
            final(self)@ == data@,
    {
        self.buffer.truncate(0);
        crate::goose::ber::append_range(&mut self.buffer, data, 0, data.len());
        assert(data@.subrange(0, data@.len() as int) =~= data@);
    }
}

impl Drop for PooledBuffer {
    fn drop(&mut self)
        opens_invariants none
        no_unwind
    {
        queue_push_from(&self.pool, &mut self.buffer);
    }
}

/// A bounded pool of receive buffers, shared by clones.
#[derive(Clone)]
pub struct BufferPool {
    queue: Arc<ArrayQueue<Vec<u8>>>,
}

impl BufferPool {
    /// The number of buffers the pool was made with.
    pub closed spec fn capacity_spec(&self) -> nat {
        queue_capacity(*self.queue)
    }

    /// A pool holding `capacity` empty buffers of `BUFFER_SIZE` bytes each.
    pub fn new(capacity: usize) -> (r: BufferPool)
        requires
            0 < capacity <= usize::MAX / 2,
        ensures
            r.capacity_spec() == capacity,
    {
        let q = new_queue(capacity);
        let mut i: usize = 0;
        while i < capacity
            invariant
                i <= capacity,
                queue_capacity(q) == capacity,
            decreases capacity - i,
        {
            let _ = queue_push(&q, empty_buffer(BUFFER_SIZE));
            i = i + 1;
        }
        BufferPool { queue: Arc::new(q) }
    }

    /// Lends a buffer, empty; `None` when every buffer is lent out.
    pub fn acquire(&self) -> (r: Option<PooledBuffer>)
        ensures
            r matches Some(b) ==> b@.len() == 0,
    {
        match queue_pop(&self.queue) {
            Some(buffer) => {
                let mut buffer = buffer;
                buffer.truncate(0);
                Some(PooledBuffer { buffer, pool: self.queue.clone() })
            },
            None => None,
        }
    }

    /// The number of buffers in the pool now.
    pub fn len(&self) -> usize {
        queue_len(&self.queue)
    }

    pub fn is_empty(&self) -> bool {
        queue_len(&self.queue) == 0
    }

    /// The number of buffers the pool was made with.
    pub fn capacity(&self) -> (r: usize)
        ensures
            r == self.capacity_spec(),
    {
        queue_capacity_of(&self.queue)
    }
}

} // verus!
