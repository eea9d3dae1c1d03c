//! Handles through which a server watches its clients.
//!
//! A client owns its payload: an `Arc<Mutex<T>>` that lives as long as the
//! client keeps it. The server holds a [`ClientHandle`], which names the
//! payload without owning it. Through the handle the server can tell two
//! clients apart, ask whether a client is still there, and become an owner
//! of the payload for a moment.
//!
//! Nothing here takes the client's lock. Waiting for a lock is not a
//! computation: whether the wait ends depends on who holds the lock, this
//! thread included. So the handle decides whether there is a payload to work
//! on and hands out its owner; to lock it and to work on it is left to the
//! caller.
//!
//! Everything here rests on `std::sync`, whose `Weak` and `Mutex` Verus does
//! not know. They are brought in below, one private function for each `std`
//! function that is called, and nothing is proved of those: what each is
//! taken to do is written above it.

use std::sync::{Arc, Mutex, Weak};
use vstd::prelude::*;

verus! {

/// `std::sync::Mutex`, as an opaque type. Nothing is said of what it holds:
/// the payload behind a lock can change between any two looks at it.
#[verifier::external_type_specification]
#[verifier::external_body]
#[verifier::reject_recursive_types(T)]
pub struct ExMutex<T: ?Sized>(Mutex<T>);

/// A client, as the server sees it: a reference to the client's payload that
/// does not keep the payload alive.
///
/// The handle is a `std::sync::Weak`. That type has an allocator parameter
/// that stable Rust cannot name, so it cannot be declared to Verus the way
/// `Mutex` is above; instead the body of this struct is hidden from Verus.
/// In specifications a handle is therefore a value of which one thing is
/// known: which allocation it points to. Two handles are equal there exactly
/// when they name the same client, which is what `==` and
/// [`ClientHandle::same_client`] find out by comparing the pointers.
#[verifier::external_body]
#[verifier::reject_recursive_types(T)]
#[derive(Debug)]
pub struct ClientHandle<T> {
    target: Weak<Mutex<T>>,
}

/// The client behind a handle is gone: its payload has been destroyed.
#[derive(Debug, Clone, Copy, PartialEq, Eq, Structural)]
pub struct Dead;

/// `Arc::downgrade`: a `Weak` to the allocation of `owner`. Nothing is
/// claimed of the result.
#[verifier::external_body]
fn downgrade<T>(owner: &Arc<Mutex<T>>) -> (handle: ClientHandle<T>) {
    ClientHandle { target: Arc::downgrade(owner) }
}

/// `Weak::clone`: a second `Weak` to the same allocation. It is claimed to
/// name the same client as the first.
#[verifier::external_body]
fn duplicate<T>(handle: &ClientHandle<T>) -> (copy: ClientHandle<T>)
    ensures
        copy == *handle,
{
    ClientHandle { target: Weak::clone(&handle.target) }
}

/// `Weak::ptr_eq`: whether two `Weak`s point to the same allocation. This is
/// claimed to be the equality of handles. A `Weak` keeps its allocation from
/// being reused, so as long as both handles exist the answer for them does
/// not change.
#[verifier::external_body]
fn same_allocation<T>(a: &ClientHandle<T>, b: &ClientHandle<T>) -> (same: bool)
    ensures
        same == (*a == *b),
{
    Weak::ptr_eq(&a.target, &b.target)
}

/// `Weak::strong_count`: how many owners the payload has at this moment.
/// Nothing is claimed of the result: another thread may drop the last owner
/// at any time.
#[verifier::external_body]
fn strong_count<T>(handle: &ClientHandle<T>) -> (owners: usize) {
    Weak::strong_count(&handle.target)
}

/// `Weak::upgrade`: an owner of the payload if it still exists, `None` once
/// it has been destroyed. Nothing is claimed of the result.
#[verifier::external_body]
fn upgrade<T>(handle: &ClientHandle<T>) -> (strong: Option<Arc<Mutex<T>>>) {
    Weak::upgrade(&handle.target)
}

/// Whether a payload that has `owners` owners is alive: it is for as long as
/// it has one.
pub fn counts_as_alive(owners: usize) -> (alive: bool)
    ensures
        alive == (owners > 0),
{
    owners > 0
}

impl<T> Clone for ClientHandle<T> {
    /// A second handle to the same client.
    fn clone(&self) -> (copy: Self)
        ensures
            copy == *self,
    {
        duplicate(self)
    }
}

impl<T> PartialEq for ClientHandle<T> {
    /// Whether both handles name the same client.
    fn eq(&self, other: &Self) -> (same: bool) {
        same_allocation(self, other)
    }
}

impl<T> Eq for ClientHandle<T> {

}

impl<T> vstd::std_specs::cmp::PartialEqSpecImpl for ClientHandle<T> {
    open spec fn obeys_eq_spec() -> bool {
        true
    }

    open spec fn eq_spec(&self, other: &Self) -> bool {
        *self == *other
    }
}

impl<T> ClientHandle<T> {
    /// A handle to the client that owns `owner`. The client stays the only
    /// owner: the handle does not keep the payload alive.
    pub fn new(owner: &Arc<Mutex<T>>) -> (handle: Self) {
        downgrade(owner)
    }

    /// Whether both handles name the same client. Clients are told apart by
    /// their payload's place in memory, never by what the payload holds.
    pub fn same_client(&self, other: &Self) -> (same: bool)
        ensures
            same == (*self == *other),
    {
        same_allocation(self, other)
    }

    /// Whether the client was alive a moment ago: its owners are counted
    /// once, and [`counts_as_alive`] says what the count means. This does not
    /// wait for any lock. The client may be gone by the time the answer is
    /// used; only [`ClientHandle::try_access`] holds it in place.
    pub fn is_alive(&self) -> (alive: bool) {
        counts_as_alive(strong_count(self))
    }

    /// An owner of the client's payload if the payload still exists, `None`
    /// once it has been destroyed. This does not wait for any lock. The
    /// payload lives at least as long as the owner that is handed out, so
    /// the owner is for the work at hand and not for keeping.
    pub fn upgrade(&self) -> (upgraded: Option<Arc<Mutex<T>>>) {
        upgrade(self)
    }

    /// What an access comes to, given what an upgrade of the handle
    /// returned: the owner that the upgrade gave, or [`Dead`] where it gave
    /// none.
    pub fn access_upgraded(upgraded: Option<Arc<Mutex<T>>>) -> (outcome: Result<
        Arc<Mutex<T>>,
        Dead,
    >)
        ensures
            outcome is Err <==> upgraded is None,
            outcome matches Ok(owner) ==> upgraded == Some(owner),
    {
        match upgraded {
            None => Err(Dead),
            Some(owner) => Ok(owner),
        }
    }

    /// Access to the client's payload if the client is still alive: an
    /// owner of the payload, which holds the client in place until it is
    /// dropped. A client that is gone gives `Err(Dead)` at once, however
    /// often it is asked.
    ///
    /// This never waits. The payload is behind the client's own lock, which
    /// the caller takes for as long as it works on the payload.
    pub fn try_access(&self) -> (outcome: Result<Arc<Mutex<T>>, Dead>) {
        Self::access_upgraded(self.upgrade())
    }
}

} // verus!
