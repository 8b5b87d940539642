//! A mailbox of one slot, shared by a sender and a receiver that may live on
//! different threads: a send fills the empty slot, a receive empties it.
use std::sync::{Arc, Condvar, Mutex, MutexGuard};
use vstd::prelude::*;

verus! {

#[verifier::external_type_specification]
#[verifier::external_body]
#[verifier::reject_recursive_types(T)]
pub struct ExMutex<T: ?Sized>(Mutex<T>);

#[verifier::external_type_specification]
#[verifier::external_body]
#[verifier::reject_recursive_types(T)]
pub struct ExMutexGuard<'a, T: ?Sized + 'a>(MutexGuard<'a, T>);

#[verifier::external_type_specification]
#[verifier::external_body]
pub struct ExCondvar(Condvar);

/// `Mutex::new`: a lock around `t`. What it holds is not tracked here: once
/// shared, other threads may change it.
pub assume_specification<T>[ Mutex::<T>::new ](t: T) -> Mutex<T>;

/// `Condvar::new`: a condition variable that no thread waits on.
pub assume_specification[ Condvar::new ]() -> Condvar;

/// `Condvar::notify_one`: wakes one waiting thread, if any.
pub assume_specification[ Condvar::notify_one ](cv: &Condvar);

/// Calls `Arc::clone`, which makes another pointer to the same allocation:
/// the clone points to the value that `cell` points to.
#[verifier::external_body]
fn share<T>(cell: &Arc<T>) -> (r: Arc<T>)
    ensures
        r == *cell,
{
    cell.clone()
}

/// Calls `Mutex::lock`, which blocks until the lock is held; nothing when
/// the lock is poisoned.
#[verifier::external_body]
fn lock<T>(m: &Mutex<Option<T>>) -> Option<MutexGuard<'_, Option<T>>> {
    m.lock().ok()
}

/// Calls `Condvar::wait_while` with a test that the slot is empty: blocks,
/// giving the lock up meanwhile, until the slot holds a value; nothing when
/// the lock is poisoned.
#[verifier::external_body]
fn wait_until_filled<'a, T>(cv: &Condvar, guard: MutexGuard<'a, Option<T>>) -> Option<MutexGuard<'a, Option<T>>> {
    cv.wait_while(guard, |slot: &mut Option<T>| is_vacant(slot)).ok()
}

/// The slot behind a held lock, through `DerefMut::deref_mut`. What it
/// holds depends on the other threads, so nothing is claimed of it.
#[verifier::external_body]
fn slot_of<'b, 'a, T>(guard: &'b mut MutexGuard<'a, Option<T>>) -> &'b mut Option<T> {
    &mut **guard
}

/// Whether the slot is empty.
pub fn is_vacant<T>(slot: &Option<T>) -> (b: bool)
    ensures
        b == (slot is None),
{
    slot.is_none()
}

/// The slot and the outcome once `value` is put in it: an empty slot takes
/// the value, a full one keeps its own and gives `value` back.
pub open spec fn put_outcome<T>(slot: Option<T>, value: T) -> (Option<T>, Result<(), T>) {
    match slot {
        Some(v) => (Some(v), Err(value)),
        None => (Some(value), Ok(())),
    }
}

/// The slot and the outcome once a value is taken from it: what it held,
/// or a failure when it was empty; it ends empty either way.
pub open spec fn take_outcome<T>(slot: Option<T>) -> (Option<T>, Result<T, ()>) {
    match slot {
        Some(v) => (None, Ok(v)),
        None => (None, Err(())),
    }
}

/// What a take gives back is what the put before it left in the empty
/// slot; a second put before that take is refused and keeps the first value.
pub proof fn lemma_take_gives_back_put<T>(value: T, other: T)
    ensures
        take_outcome(put_outcome(None, value).0) == (None::<T>, Ok::<T, ()>(value)),
        put_outcome(put_outcome(None, value).0, other) == (Some(value), Err::<(), T>(other)),
{
}

/// Fills an empty slot with `value`; a full slot stays as it is, and the
/// value comes back.
pub fn put<T>(slot: &mut Option<T>, value: T) -> (r: Result<(), T>)
    ensures
        (*final(slot), r) == put_outcome(*old(slot), value),
{
    if slot.is_some() {
        Err(value)
    } else {
        *slot = Some(value);
        Ok(())
    }
}

/// Empties the slot and gives what it held; fails on an empty slot.
pub fn take<T>(slot: &mut Option<T>) -> (r: Result<T, ()>)
    ensures
        (*final(slot), r) == take_outcome(*old(slot)),
{
    match slot.take() {
        Some(v) => Ok(v),
        None => Err(()),
    }
}

#[verifier::reject_recursive_types(T)]
struct Mailbox<T> {
    value: Mutex<Option<T>>,
    monitor: Condvar,
}

impl<T> Mailbox<T> {
    fn new() -> Mailbox<T> {
        Mailbox { value: Mutex::new(None), monitor: Condvar::new() }
    }
}

/// A new mailbox, empty, and its two ends, which share it: the receiving
/// end is a clone of the pointer that the sending end holds.
pub fn mailbox<T>() -> (ends: (Sender<T>, Receiver<T>))
    ensures
        ends.0.same_mailbox_value_as(&ends.1),
{
    let sender_cell = Arc::new(Mailbox::new());
    let receiver_cell = share(&sender_cell);
    (Sender { cell: sender_cell }, Receiver { cell: receiver_cell })
}

#[verifier::reject_recursive_types(T)]
pub struct Sender<T> {
    cell: Arc<Mailbox<T>>,
}

impl<T> Sender<T> {
    /// Whether the mailbox behind this end equals, as a value, the one
    /// behind `receiver`; this compares what the two ends point to, not
    /// where.
    pub closed spec fn same_mailbox_value_as(&self, receiver: &Receiver<T>) -> bool {
        self.cell == receiver.cell
    }

    /// Puts `value` in the mailbox if it is empty and wakes the receiver;
    /// when the mailbox is full or its lock poisoned, `value` comes back.
    pub fn try_send(&self, value: T) -> (r: Result<(), T>)
        ensures
            r matches Err(v) ==> v == value,
    {
        match lock(&self.cell.value) {
            Some(mut guard) => {
                let r = put(slot_of(&mut guard), value);
                if r.is_ok() {
                    self.cell.monitor.notify_one();
                }
                r
            },
            None => Err(value),
        }
    }
}

#[verifier::reject_recursive_types(T)]
pub struct Receiver<T> {
    cell: Arc<Mailbox<T>>,
}

impl<T> Receiver<T> {
    /// Waits until the mailbox holds a value and takes it; fails when the
    /// lock is poisoned.
    pub fn recv(&self) -> Result<T, ()> {
        match lock(&self.cell.value) {
            Some(guard) => match wait_until_filled(&self.cell.monitor, guard) {
                Some(mut guard) => take(slot_of(&mut guard)),
                None => Err(()),
            },
            None => Err(()),
        }
    }

    /// Takes the value in the mailbox; fails when it is empty or its lock
    /// poisoned.
    pub fn try_recv(&self) -> Result<T, ()> {
        match lock(&self.cell.value) {
            Some(mut guard) => take(slot_of(&mut guard)),
            None => Err(()),
        }
    }
}

} // verus!
