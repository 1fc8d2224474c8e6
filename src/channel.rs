//! A single-threaded multi-producer channel: senders append to a shared
//! queue, the receiver takes values in the order they were sent.
use vstd::prelude::*;
use vstd::cell::invcell::InvCell;
use vstd::predicate::Predicate;
use std::collections::VecDeque;
use std::rc::Rc;

verus! {

/// The state that all handles of one channel share.
pub struct Inner<T> {
    queue: VecDeque<T>,
}

/// The shared state needs no invariant beyond its type.
pub struct AnyState;

impl<T> Predicate<Inner<T>> for AnyState {
    open spec fn predicate(&self, v: Inner<T>) -> bool {
        true
    }
}

/// The sending side; `clone_sender` gives another handle on the same queue.
pub struct Sender<T> {
    shared: Rc<InvCell<Inner<T>, AnyState>>,
}

/// The receiving side. It keeps a local buffer of values already moved out
/// of the shared queue.
pub struct Receiver<T> {
    shared: Rc<InvCell<Inner<T>, AnyState>>,
    buffer: VecDeque<T>,
}

/// Takes the shared state out of the cell, leaving an empty one in its place.
fn take_inner<T>(cell: &InvCell<Inner<T>, AnyState>) -> Inner<T> {
    cell.replace(Inner { queue: VecDeque::new() })
}

/// Puts the shared state back into the cell.
fn put_inner<T>(cell: &InvCell<Inner<T>, AnyState>, inner: Inner<T>) {
    let _ = cell.replace(inner);
}

impl<T> Sender<T> {
    /// Appends `value` to the channel's queue.
    pub fn send(&self, value: T) {
        let cell: &InvCell<Inner<T>, AnyState> = &self.shared;
        let mut inner = take_inner(cell);
        inner.queue.push_back(value);
        put_inner(cell, inner);
    }

    /// Another sender on the same channel.
    pub fn clone_sender(&self) -> Sender<T> {
        Sender { shared: Rc::clone(&self.shared) }
    }
}

impl<T> Receiver<T> {
    /// Values already moved to this receiver, in order.
    pub closed spec fn buffered(&self) -> Seq<T> {
        self.buffer@
    }

    /// Takes the oldest value from the shared queue, if there is one.
    pub fn try_recv(&self) -> Option<T> {
        let cell: &InvCell<Inner<T>, AnyState> = &self.shared;
        let mut inner = take_inner(cell);
        let r = inner.queue.pop_front();
        put_inner(cell, inner);
        r
    }

    /// Takes the oldest value: first from the local buffer; else from the
    /// shared queue, moving the rest of that queue into the buffer in one
    /// step. Returns `None` when nothing is queued: with one thread, no
    /// sender can add a value while the receiver waits.
    pub fn recv(&mut self) -> (r: Option<T>)
        ensures
            old(self).buffered().len() > 0 ==> r == Some(old(self).buffered()[0])
                && final(self).buffered() == old(self).buffered().drop_first(),
            r is None ==> old(self).buffered().len() == 0 && final(self).buffered().len() == 0,
    {
        if self.buffer.len() > 0 {
            return self.buffer.pop_front();
        }
        let cell: &InvCell<Inner<T>, AnyState> = &self.shared;
        let mut inner = take_inner(cell);
        match inner.queue.pop_front() {
            Some(value) => {
                let rest = inner.queue;
                inner.queue = VecDeque::new();
                self.buffer = rest;
                put_inner(cell, inner);
                Some(value)
            },
            None => {
                put_inner(cell, inner);
                None
            },
        }
    }
}

/// A new channel with one sender and one receiver.
pub fn channel<T>() -> (r: (Sender<T>, Receiver<T>))
    ensures
        r.1.buffered().len() == 0,
{
    let inner = Inner { queue: VecDeque::new() };
    let cell = InvCell::new(inner, Ghost(AnyState));
    let shared = Rc::new(cell);
    (Sender { shared: Rc::clone(&shared) }, Receiver { shared, buffer: VecDeque::new() })
}

} // verus!
