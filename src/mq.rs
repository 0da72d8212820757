//! A blocking hand-off queue between threads that can coalesce requests:
//! a sender may overwrite the newest queued element instead of adding one.
//!
//! The queue operations themselves are plain functions on a `VecDeque` with
//! exact contracts. The shared queue sits behind a `Mutex` and a `Condvar`,
//! which other threads change at any time: the contracts of the shared
//! handles say what holds whatever state another thread left behind.
use std::collections::VecDeque;
use std::sync::{Arc, Condvar, Mutex, MutexGuard};
use vstd::prelude::*;

verus! {

/// `std::sync::Mutex`, held opaquely: other threads change what it guards.
#[verifier::external_type_specification]
#[verifier::external_body]
#[verifier::reject_recursive_types(T)]
pub struct ExMutex<T: ?Sized>(Mutex<T>);

/// `std::sync::MutexGuard`, the proof that the lock is held.
#[verifier::external_type_specification]
#[verifier::external_body]
#[verifier::reject_recursive_types(T)]
pub struct ExMutexGuard<'a, T: ?Sized + 'a>(MutexGuard<'a, T>);

/// `std::sync::Condvar`, on which receivers wait for the queue to fill.
#[verifier::external_type_specification]
#[verifier::external_body]
pub struct ExCondvar(Condvar);

/// The queue after adding `v` at the back, or after overwriting the newest
/// element with `v` when `replace_last` holds and there is one.
pub open spec fn queue_after_send<T>(q: Seq<T>, replace_last: bool, v: T) -> Seq<T> {
    if replace_last && q.len() > 0 {
        q.update(q.len() - 1, v)
    } else {
        q.push(v)
    }
}

/// Adding with a predicate that never holds is a plain send: the queue
/// grows by one, with `v` at the back. With a predicate that always holds
/// and a non-empty queue, the length stays and only the newest element
/// changes, to `v`.
pub proof fn lemma_replace_if_semantics<T>(q: Seq<T>, v: T)
    ensures
        queue_after_send(q, false, v) == q.push(v),
        queue_after_send(q, false, v).len() == q.len() + 1,
        q.len() > 0 ==> queue_after_send(q, true, v).len() == q.len(),
        q.len() > 0 ==> queue_after_send(q, true, v).last() == v,
        q.len() > 0 ==> forall|i: int|
            0 <= i < q.len() - 1 ==> #[trigger] queue_after_send(q, true, v)[i] == q[i],
{
}

/// One step seen by a queue: a send (that overwrites the newest element when
/// `replace_last` holds and there is one) or a receive.
pub enum QueueEvent<T> {
    Send { replace_last: bool, value: T },
    Recv,
}

/// What a single receiver has taken, and what is still queued, after the
/// events `evs` (a receive on an empty queue waits and takes nothing here).
/// Each event is one step that a handle takes under the lock: a send is
/// `send_step`, a receive is `take_oldest`.
pub open spec fn run_events<T>(evs: Seq<QueueEvent<T>>) -> (Seq<T>, Seq<T>)
    decreases evs.len(),
{
    if evs.len() == 0 {
        (seq![], seq![])
    } else {
        let (taken, q) = run_events(evs.drop_last());
        match evs.last() {
            QueueEvent::Send { replace_last, value } => (taken, queue_after_send(q, replace_last, value)),
            QueueEvent::Recv => match queue_after_recv(q).1 {
                Some(v) => (taken.push(v), queue_after_recv(q).0),
                None => (taken, q),
            },
        }
    }
}

/// The values sent, in sending order, leaving out each one that a later
/// send overwrote while it was still queued.
pub open spec fn surviving_values<T>(evs: Seq<QueueEvent<T>>) -> Seq<T>
    decreases evs.len(),
{
    if evs.len() == 0 {
        seq![]
    } else {
        let kept = surviving_values(evs.drop_last());
        let q = run_events(evs.drop_last()).1;
        match evs.last() {
            QueueEvent::Send { replace_last, value } => if replace_last && q.len() > 0 {
                kept.update(kept.len() - 1, value)
            } else {
                kept.push(value)
            },
            QueueEvent::Recv => kept,
        }
    }
}

/// A single receiver takes exactly the values that were never overwritten,
/// in the order they were sent: what it has taken followed by what is still
/// queued is always the sequence of surviving values. The lock puts the
/// operations of any number of senders into one such sequence of events.
pub proof fn lemma_receiver_sees_survivors_in_order<T>(evs: Seq<QueueEvent<T>>)
    ensures
        run_events(evs).0 + run_events(evs).1 == surviving_values(evs),
    decreases evs.len(),
{
    if evs.len() > 0 {
        let prev = evs.drop_last();
        lemma_receiver_sees_survivors_in_order(prev);
        let (taken, q) = run_events(prev);
        let (taken2, q2) = run_events(evs);
        match evs.last() {
            QueueEvent::Send { replace_last, value } => {
                assert(taken2 + q2 =~= surviving_values(evs));
            },
            QueueEvent::Recv => {
                assert(taken2 + q2 =~= taken + q);
            },
        }
    }
}

/// Adds `v` at the back of `q`, or overwrites the newest element with it when
/// `replace_last` holds and `q` is not empty.
pub fn push_or_replace_last<T>(q: &mut VecDeque<T>, replace_last: bool, v: T)
    ensures
        final(q)@ == queue_after_send(old(q)@, replace_last, v),
{
    if replace_last && q.len() > 0 {
        let _ = q.pop_back();
        q.push_back(v);
        proof {
            assert(final(q)@ =~= queue_after_send(old(q)@, replace_last, v));
        }
    } else {
        q.push_back(v);
    }
}

/// Whether `pred` holds of the newest element of `q`; false when `q` is empty.
pub fn last_satisfies<T, F: FnOnce(&T) -> bool>(q: &VecDeque<T>, pred: F) -> (r: bool)
    requires
        q@.len() > 0 ==> call_requires(pred, (&q@.last(),)),
    ensures
        q@.len() == 0 ==> !r,
        q@.len() > 0 ==> call_ensures(pred, (&q@.last(),), r),
{
    let n = q.len();
    if n == 0 {
        false
    } else {
        pred(&q[n - 1])
    }
}

/// One send under the lock: adds or overwrites as `push_or_replace_last`
/// does, and tells whether the queue grew, which is when a waiting receiver
/// must be woken.
pub fn send_step<T>(q: &mut VecDeque<T>, replace_last: bool, v: T) -> (wake: bool)
    ensures
        final(q)@ == queue_after_send(old(q)@, replace_last, v),
        wake == (final(q)@.len() > old(q)@.len()),
{
    let grows = !replace_last || q.len() == 0;
    push_or_replace_last(q, replace_last, v);
    grows
}

/// The queue after a receive, and what was received: the oldest element,
/// or nothing from an empty queue.
pub open spec fn queue_after_recv<T>(q: Seq<T>) -> (Seq<T>, Option<T>) {
    if q.len() > 0 {
        (q.skip(1), Some(q[0]))
    } else {
        (q, None)
    }
}

/// One receive under the lock: removes and returns the oldest element.
pub fn take_oldest<T>(q: &mut VecDeque<T>) -> (r: Option<T>)
    ensures
        (final(q)@, r) == queue_after_recv(old(q)@),
{
    if q.len() == 0 {
        None
    } else {
        let r = q.pop_front();
        proof {
            assert(final(q)@ =~= old(q)@.skip(1));
        }
        r
    }
}

/// Whether the queue is empty.
pub fn queue_is_empty<T>(q: &VecDeque<T>) -> (r: bool)
    ensures
        r == (q@.len() == 0),
{
    q.len() == 0
}

/// Removes and returns every element of `q`, oldest first.
pub fn take_all<T>(q: &mut VecDeque<T>) -> (r: Vec<T>)
    ensures
        r@ == old(q)@,
        final(q)@.len() == 0,
{
    let mut out: Vec<T> = Vec::new();
    while q.len() > 0
        invariant
            out@ + q@ == old(q)@,
        decreases q@.len(),
    {
        let ghost before = q@;
        match q.pop_front() {
            Some(v) => {
                out.push(v);
                proof {
                    assert(out@ + q@ =~= old(q)@);
                }
            },
            None => {},
        }
    }
    proof {
        assert(out@ + q@ =~= out@);
    }
    out
}

/// Relies on `Mutex::new`: a fresh unpoisoned lock around the value.
#[verifier::external_body]
fn new_lock<T>(q: VecDeque<T>) -> Mutex<VecDeque<T>> {
    Mutex::new(q)
}

/// Relies on `Condvar::new`.
#[verifier::external_body]
fn new_condvar() -> Condvar {
    Condvar::new()
}

/// The queue while its lock is held, with what it holds as a model: no
/// other thread can change the queue until the guard is dropped.
#[verifier::reject_recursive_types(T)]
struct LockedQueue<'a, T> {
    guard: MutexGuard<'a, VecDeque<T>>,
    held: Ghost<Seq<T>>,
}

impl<'a, T> View for LockedQueue<'a, T> {
    type V = Seq<T>;

    closed spec fn view(&self) -> Seq<T> {
        self.held@
    }
}

/// Relies on `Mutex::lock`: blocks until the lock is held; fails only when
/// another thread panicked while holding it. The model is the queue as the
/// guard finds it.
#[verifier::external_body]
fn lock_queue<'a, T>(m: &'a Mutex<VecDeque<T>>) -> Result<LockedQueue<'a, T>, String> {
    match m.lock() {
        Ok(g) => Ok(LockedQueue { held: Ghost((*g)@), guard: g }),
        Err(err) => Err(format!("Error locking mutex: {err}")),
    }
}

/// Relies on `MutexGuard`'s `DerefMut`: access to the locked queue, which
/// holds what the model says, and whose changes the model follows.
#[verifier::external_body]
fn guarded<'a, 'b, T>(l: &'a mut LockedQueue<'b, T>) -> (r: &'a mut VecDeque<T>)
    ensures
        (*r)@ == old(l)@,
        final(l)@ == (*final(r))@,
{
    &mut *l.guard
}

/// Relies on `Condvar::notify_all`: wakes every waiting receiver.
#[verifier::external_body]
fn wake_all(c: &Condvar) {
    c.notify_all()
}

/// Relies on `Condvar::wait_while`: releases the lock and blocks until the
/// queue is not empty, then holds the lock again; it returns only once the
/// condition (an empty queue) is false, so the queue it hands back is not
/// empty.
#[verifier::external_body]
fn wait_until_filled<'a, T>(c: &Condvar, l: LockedQueue<'a, T>) -> (r: Result<LockedQueue<'a, T>, String>)
    ensures
        r matches Ok(l2) ==> l2@.len() > 0,
{
    match c.wait_while(l.guard, |q| queue_is_empty(q)) {
        Ok(g) => Ok(LockedQueue { held: Ghost((*g)@), guard: g }),
        Err(err) => Err(format!("Error waiting on Condvar: {err}")),
    }
}

/// Relies on `Vec::into_boxed_slice`: the same elements in a boxed slice.
#[verifier::external_body]
fn boxed<T>(v: Vec<T>) -> (r: Box<[T]>)
    ensures
        r@ == v@,
{
    v.into_boxed_slice()
}

/// Sending half of a queue; it can be cloned and shared between threads.
#[verifier::reject_recursive_types(T)]
pub struct MessageQueueSender<T> {
    queue: Arc<(Mutex<VecDeque<T>>, Condvar)>,
}

/// Receiving half of a queue.
#[verifier::reject_recursive_types(T)]
pub struct MessageQueueReceiver<T> {
    queue: Arc<(Mutex<VecDeque<T>>, Condvar)>,
}

impl<T> Clone for MessageQueueSender<T> {
    fn clone(&self) -> Self {
        MessageQueueSender { queue: Arc::clone(&self.queue) }
    }
}

/// A value that could not be queued, handed back with the reason.
pub struct SendError<T> {
    pub data: T,
    pub message: String,
}

/// Why a receive failed.
pub struct RecvError {
    pub message: String,
}

/// Why a non-blocking receive returned nothing.
pub enum TryRecvError {
    RecvError(RecvError),
    Empty,
}

/// Creates a queue and returns its two halves, which share it.
pub fn mq<T>() -> (MessageQueueSender<T>, MessageQueueReceiver<T>) {
    let q = Arc::new((new_lock(VecDeque::new()), new_condvar()));
    let q2 = Arc::clone(&q);
    (MessageQueueSender { queue: q }, MessageQueueReceiver { queue: q2 })
}

impl<T> MessageQueueSender<T> {
    /// Adds `val` at the back of the queue and wakes the receiver. On a
    /// failure `val` comes back in the error.
    pub fn send(&self, val: T) -> (r: Result<(), SendError<T>>)
        ensures
            r matches Err(e) ==> e.data == val,
    {
        self.push(false, val)
    }

    /// Overwrites the newest queued element with `val`, or adds `val` when
    /// the queue is empty. On a failure `val` comes back in the error.
    pub fn send_or_replace(&self, val: T) -> (r: Result<(), SendError<T>>)
        ensures
            r matches Err(e) ==> e.data == val,
    {
        self.push(true, val)
    }

    /// Overwrites the newest queued element with `val` when `pred` holds of
    /// it, and adds `val` otherwise. On a failure `val` comes back in the
    /// error.
    pub fn send_or_replace_if<F: FnOnce(&T) -> bool>(&self, pred: F, val: T) -> (r: Result<(), SendError<T>>)
        requires
            forall|x: &T| #[trigger] call_requires(pred, (x,)),
        ensures
            r matches Err(e) ==> e.data == val,
    {
        let (lock, cvar) = &*self.queue;
        let mut locked = match lock_queue(lock) {
            Ok(l) => l,
            Err(message) => return Err(SendError { data: val, message }),
        };
        let q = guarded(&mut locked);
        let replace = last_satisfies(q, pred);
        if send_step(q, replace, val) {
            wake_all(cvar);
        }
        Ok(())
    }

    fn push(&self, replace_last: bool, val: T) -> (r: Result<(), SendError<T>>)
        ensures
            r matches Err(e) ==> e.data == val,
    {
        let (lock, cvar) = &*self.queue;
        let mut locked = match lock_queue(lock) {
            Ok(l) => l,
            Err(message) => return Err(SendError { data: val, message }),
        };
        let q = guarded(&mut locked);
        if send_step(q, replace_last, val) {
            wake_all(cvar);
        }
        Ok(())
    }

    /// Whether the queue is empty at the moment of the call.
    pub fn is_empty(&self) -> Result<bool, SendError<()>> {
        let (lock, _) = &*self.queue;
        let mut locked = match lock_queue(lock) {
            Ok(l) => l,
            Err(message) => return Err(SendError { data: (), message }),
        };
        let q = guarded(&mut locked);
        Ok(queue_is_empty(q))
    }
}

impl<T> MessageQueueReceiver<T> {
    fn wait_until_nonempty(&self) -> (r: Result<LockedQueue<'_, T>, RecvError>)
        ensures
            r matches Ok(l) ==> l@.len() > 0,
    {
        let (lock, cvar) = &*self.queue;
        let locked = match lock_queue(lock) {
            Ok(l) => l,
            Err(message) => return Err(RecvError { message }),
        };
        match wait_until_filled(cvar, locked) {
            Ok(g) => Ok(g),
            Err(message) => Err(RecvError { message }),
        }
    }

    /// Blocks until the queue holds an element, then removes and returns
    /// all of them, oldest first.
    pub fn drain(&self) -> (r: Result<Box<[T]>, RecvError>)
        ensures
            r matches Ok(b) ==> b@.len() > 0,
    {
        let mut locked = match self.wait_until_nonempty() {
            Ok(l) => l,
            Err(e) => return Err(e),
        };
        let q = guarded(&mut locked);
        Ok(boxed(take_all(q)))
    }

    /// Blocks until the queue holds an element, then removes and returns the
    /// oldest.
    pub fn recv(&self) -> Result<T, RecvError> {
        let mut locked = match self.wait_until_nonempty() {
            Ok(l) => l,
            Err(e) => return Err(e),
        };
        let q = guarded(&mut locked);
        let r = take_oldest(q);
        proof {
            assert(r is Some);
        }
        Ok(r.unwrap())
    }

    /// Removes and returns the oldest element without blocking.
    pub fn try_recv(&self) -> Result<T, TryRecvError> {
        let (lock, _) = &*self.queue;
        let mut locked = match lock_queue(lock) {
            Ok(l) => l,
            Err(message) => return Err(TryRecvError::RecvError(RecvError { message })),
        };
        let q = guarded(&mut locked);
        match take_oldest(q) {
            Some(v) => Ok(v),
            None => Err(TryRecvError::Empty),
        }
    }
}

} // verus!
