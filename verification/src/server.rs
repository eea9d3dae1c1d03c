//! The registry as the server holds it.
//!
//! A [`Server`] stands for a [`Registry`]: every operation says, over that
//! value, what it returns and what it changes. The server never takes a
//! client's lock. All it asks of a client is whether it is alive, which does
//! not wait, so a client that stalls holds up no operation here.
//!
//! Whether a client is alive is decided outside, and can change between any
//! two questions. So each operation that depends on it comes twice. The one
//! with `_with` in its name takes the reading as an argument and is pinned
//! down for every value of it. The one without reads the client itself and
//! then does what the first does on that reading; its contract says what
//! holds whichever way the reading went.

use crate::handle::ClientHandle;
use crate::registry::{lemma_survivors, survivors, Registry};
use vstd::prelude::*;

verus! {

/// The answer to the registration of a client that has an entry and is
/// still alive.
#[derive(Debug, Clone, Copy, PartialEq, Eq, Structural)]
pub struct AlreadyRegistered;

/// What the server holds for one client: the handle it watches the client
/// through, and the last checkpoint taken of it, if any.
#[verifier::reject_recursive_types(T)]
#[derive(Debug)]
pub struct ServerSideClientObj<T> {
    pub pointer: ClientHandle<T>,
    pub checkpoint: Option<T>,
}

/// The registry of a server. It owns its entries and never a client: every
/// client is held through a [`ClientHandle`], so nothing here keeps a payload
/// alive.
///
/// The server is a plain value, and each operation needs it to itself. Where
/// several threads serve, they share it behind a lock of their own; the
/// operations then take effect one after the other, and what each promises
/// holds of the state it found.
#[verifier::reject_recursive_types(T)]
#[derive(Debug)]
pub struct Server<T> {
    /// The entries, oldest first.
    clients: Vec<ServerSideClientObj<T>>,
    /// What is left of entries that a sweep has removed while they held a
    /// checkpoint. Each stays until its checkpoint is read or its client
    /// registers again.
    left_behind: Vec<ServerSideClientObj<T>>,
}

/// The handles of `list`, in order.
spec fn handles<T>(list: Seq<ServerSideClientObj<T>>) -> Seq<ClientHandle<T>> {
    list.map_values(|entry: ServerSideClientObj<T>| entry.pointer)
}

/// The checkpoint that `list` holds for `who`.
spec fn stored<T>(list: Seq<ServerSideClientObj<T>>, who: ClientHandle<T>) -> Option<T> {
    if handles(list).contains(who) {
        list[handles(list).index_of(who)].checkpoint
    } else {
        None
    }
}

/// In a list without a repeated handle, the item at `at` is the one that
/// speaks for its client.
proof fn lemma_stored_at<T>(list: Seq<ServerSideClientObj<T>>, at: int)
    requires
        handles(list).no_duplicates(),
        0 <= at < list.len(),
    ensures
        handles(list).contains(list[at].pointer),
        handles(list).index_of(list[at].pointer) == at,
        stored(list, list[at].pointer) == list[at].checkpoint,
{
    assert(handles(list)[at] == list[at].pointer);
}

/// Replacing an item by one with the same handle changes the checkpoint of
/// that client and nothing else.
proof fn lemma_replaced<T>(
    list: Seq<ServerSideClientObj<T>>,
    at: int,
    entry: ServerSideClientObj<T>,
)
    requires
        handles(list).no_duplicates(),
        0 <= at < list.len(),
        entry.pointer == list[at].pointer,
    ensures
        handles(list.update(at, entry)) == handles(list),
        forall|who: ClientHandle<T>| #[trigger]
            stored(list.update(at, entry), who) == if who == entry.pointer {
                entry.checkpoint
            } else {
                stored(list, who)
            },
{
    let after = list.update(at, entry);
    assert(handles(after) =~= handles(list));
    assert forall|who: ClientHandle<T>| #[trigger]
        stored(after, who) == if who == entry.pointer {
            entry.checkpoint
        } else {
            stored(list, who)
        } by {
        lemma_stored_at(after, at);
    }
}

/// Adding an item for a client that has none adds that client and changes
/// nothing for the others.
proof fn lemma_pushed<T>(list: Seq<ServerSideClientObj<T>>, entry: ServerSideClientObj<T>)
    requires
        handles(list).no_duplicates(),
        !handles(list).contains(entry.pointer),
    ensures
        handles(list.push(entry)) == handles(list).push(entry.pointer),
        handles(list.push(entry)).no_duplicates(),
        forall|who: ClientHandle<T>| #[trigger]
            handles(list.push(entry)).contains(who) <==> handles(list).contains(who) || who
                == entry.pointer,
        forall|who: ClientHandle<T>| #[trigger]
            stored(list.push(entry), who) == if who == entry.pointer {
                entry.checkpoint
            } else {
                stored(list, who)
            },
{
    let after = list.push(entry);
    let last = list.len() as int;
    assert forall|i: int, j: int|
        0 <= i < after.len() && 0 <= j < after.len() && i != j implies handles(after)[i]
        != handles(after)[j] by {
        if i < last {
            assert(handles(list)[i] == handles(after)[i]);
        }
        if j < last {
            assert(handles(list)[j] == handles(after)[j]);
        }
    }
    assert forall|who: ClientHandle<T>| #[trigger]
        handles(after).contains(who) <==> handles(list).contains(who) || who
            == entry.pointer by {
        if handles(list).contains(who) {
            let k = handles(list).index_of(who);
            assert(handles(after)[k] == who);
        }
        if who == entry.pointer {
            assert(handles(after)[last] == who);
        }
        if handles(after).contains(who) {
            let k = handles(after).index_of(who);
            if k < last {
                assert(handles(list)[k] == who);
            }
        }
    }
    assert forall|who: ClientHandle<T>| #[trigger]
        stored(after, who) == if who == entry.pointer {
            entry.checkpoint
        } else {
            stored(list, who)
        } by {
        lemma_stored_at(after, last);
        if handles(list).contains(who) {
            let k = handles(list).index_of(who);
            lemma_stored_at(after, k);
        }
    }
}

/// Taking an item out removes its client and changes nothing for the others.
proof fn lemma_removed<T>(list: Seq<ServerSideClientObj<T>>, at: int)
    requires
        handles(list).no_duplicates(),
        0 <= at < list.len(),
    ensures
        handles(list.remove(at)) == handles(list).remove(at),
        handles(list.remove(at)).no_duplicates(),
        forall|who: ClientHandle<T>| #[trigger]
            handles(list.remove(at)).contains(who) <==> handles(list).contains(who) && who
                != list[at].pointer,
        forall|who: ClientHandle<T>| #[trigger]
            stored(list.remove(at), who) == if who == list[at].pointer {
                None
            } else {
                stored(list, who)
            },
{
    let after = list.remove(at);
    let gone = list[at].pointer;
    assert forall|i: int, j: int|
        0 <= i < after.len() && 0 <= j < after.len() && i != j implies handles(after)[i]
        != handles(after)[j] by {
        let i0 = if i < at { i } else { i + 1 };
        let j0 = if j < at { j } else { j + 1 };
        assert(handles(after)[i] == handles(list)[i0]);
        assert(handles(after)[j] == handles(list)[j0]);
    }
    assert forall|who: ClientHandle<T>| #[trigger]
        handles(after).contains(who) <==> handles(list).contains(who) && who != gone by {
        assert(handles(list)[at] == gone);
        if handles(list).contains(who) && who != gone {
            let k = handles(list).index_of(who);
            let k1 = if k < at { k } else { k - 1 };
            assert(handles(after)[k1] == who);
        }
        if handles(after).contains(who) {
            let k = handles(after).index_of(who);
            let k0 = if k < at { k } else { k + 1 };
            assert(handles(list)[k0] == who);
        }
    }
    assert forall|who: ClientHandle<T>| #[trigger]
        stored(after, who) == if who == gone {
            None
        } else {
            stored(list, who)
        } by {
        if handles(after).contains(who) {
            let k = handles(after).index_of(who);
            let k0 = if k < at { k } else { k + 1 };
            lemma_stored_at(list, k0);
        }
    }
}

/// The checkpoint held for `who` while a sweep sorts the entries: in an
/// entry that it keeps, in one that it has not come to yet, or left behind.
spec fn held_in<T>(
    kept: Seq<ServerSideClientObj<T>>,
    rest: Seq<ServerSideClientObj<T>>,
    left_behind: Seq<ServerSideClientObj<T>>,
    who: ClientHandle<T>,
) -> Option<T> {
    if handles(kept).contains(who) {
        stored(kept, who)
    } else if handles(rest).contains(who) {
        stored(rest, who)
    } else {
        stored(left_behind, who)
    }
}

/// Looks for the item of `list` that belongs to `who`.
fn position<T>(list: &Vec<ServerSideClientObj<T>>, who: &ClientHandle<T>) -> (found: Option<usize>)
    ensures
        found is Some <==> handles(list@).contains(*who),
        found matches Some(at) ==> at < list.len() && list[at as int].pointer == *who,
{
    let mut at: usize = 0;
    while at < list.len()
        invariant
            at <= list.len(),
            forall|k: int| 0 <= k < at ==> list[k].pointer != *who,
        decreases list.len() - at,
    {
        if list[at].pointer.same_client(who) {
            assert(handles(list@)[at as int] == *who);
            return Some(at);
        }
        at += 1;
    }
    None
}

impl<T> Server<T> {
    /// No client stands twice in either list, none stands in both, and
    /// whatever is left behind holds a checkpoint.
    #[verifier::type_invariant]
    spec fn inv(self) -> bool {
        &&& handles(self.clients@).no_duplicates()
        &&& handles(self.left_behind@).no_duplicates()
        &&& forall|who: ClientHandle<T>| #[trigger]
            handles(self.left_behind@).contains(who) ==> !handles(self.clients@).contains(who)
                && stored(self.left_behind@, who) is Some
    }

    /// The checkpoint held for `who`, in its entry or left behind by it.
    spec fn held(self, who: ClientHandle<T>) -> Option<T> {
        if handles(self.clients@).contains(who) {
            stored(self.clients@, who)
        } else {
            stored(self.left_behind@, who)
        }
    }

    /// The registry that this server stands for.
    pub closed spec fn view(&self) -> Registry<T> {
        Registry {
            members: handles(self.clients@),
            cached: Map::new(
                |who: ClientHandle<T>| self.held(who) is Some,
                |who: ClientHandle<T>| self.held(who)->0,
            ),
        }
    }

    /// A server that has seen no client yet.
    pub fn new() -> (server: Self)
        ensures
            server@ == Registry::<T>::empty(),
            server@.wf(),
    {
        let server = Server { clients: Vec::new(), left_behind: Vec::new() };
        assert(server@.members =~= Seq::empty());
        assert(server@.cached =~= Map::empty());
        server
    }

    /// The number of entries, those of dead clients included.
    pub fn len(&self) -> (count: usize)
        ensures
            count == self@.members.len(),
            self@.wf(),
    {
        proof {
            use_type_invariant(self);
        }
        self.clients.len()
    }

    /// The entries, oldest first: one for each member of the registry, with
    /// the checkpoint that is cached for it.
    pub fn clients(&self) -> (entries: &Vec<ServerSideClientObj<T>>)
        ensures
            entries@.len() == self@.members.len(),
            forall|i: int|
                0 <= i < entries@.len() ==> (#[trigger] entries@[i]).pointer == self@.members[i]
                    && entries@[i].checkpoint == self@.cached_value(self@.members[i]),
            self@.wf(),
    {
        proof {
            use_type_invariant(self);
        }
        &self.clients
    }

    /// Whether `who` has an entry, alive or not.
    pub fn has_entry(&self, who: &ClientHandle<T>) -> (found: bool)
        ensures
            found == self@.has_entry(*who),
            self@.wf(),
    {
        proof {
            use_type_invariant(self);
        }
        position(&self.clients, who).is_some()
    }

    /// Whether `who` is a client, given how it was read: it has an entry and
    /// was read alive. An entry read dead is never taken for a live one.
    pub fn has_client_with(&self, who: &ClientHandle<T>, alive: bool) -> (found: bool)
        ensures
            found == self@.has_client(*who, alive),
            self@.wf(),
    {
        proof {
            use_type_invariant(self);
        }
        alive && position(&self.clients, who).is_some()
    }

    /// Whether `who` is a client right now. The reading is taken on `who`
    /// itself, which shares its payload with the entry. A client without an
    /// entry is never found, whatever the reading.
    pub fn has_client(&self, who: &ClientHandle<T>) -> (found: bool)
        ensures
            found ==> self@.has_entry(*who),
            self@.wf(),
    {
        let alive = who.is_alive();
        self.has_client_with(who, alive)
    }

    /// Registers `handle`, given how its client was read. A client that has
    /// an entry and was read alive is turned down, and nothing changes. In
    /// every other case the client gets a fresh entry without a checkpoint:
    /// a new one at the end, or one in place of the dead entry it had.
    pub fn register_with(&mut self, handle: ClientHandle<T>, alive: bool) -> (outcome: Result<
        (),
        AlreadyRegistered,
    >)
        ensures
            outcome is Err <==> old(self)@.refuses(handle, alive),
            final(self)@ == old(self)@.register(handle, alive),
            final(self)@.wf(),
    {
        proof {
            use_type_invariant(&*self);
        }
        let ghost before = *self;
        match position(&self.clients, &handle) {
            Some(at) => {
                if alive {
                    return Err(AlreadyRegistered);
                }
                let mut clients = Vec::new();
                std::mem::swap(&mut clients, &mut self.clients);
                clients[at] = ServerSideClientObj { pointer: handle, checkpoint: None };
                proof {
                    lemma_replaced(before.clients@, at as int, clients@[at as int]);
                }
                self.clients = clients;
            },
            None => {
                match position(&self.left_behind, &handle) {
                    Some(at) => {
                        let mut left_behind = Vec::new();
                        std::mem::swap(&mut left_behind, &mut self.left_behind);
                        left_behind.remove(at);
                        proof {
                            lemma_removed(before.left_behind@, at as int);
                        }
                        self.left_behind = left_behind;
                    },
                    None => {},
                }
                let mut clients = Vec::new();
                std::mem::swap(&mut clients, &mut self.clients);
                clients.push(ServerSideClientObj { pointer: handle, checkpoint: None });
                proof {
                    lemma_pushed(before.clients@, clients@.last());
                }
                self.clients = clients;
            },
        }
        proof {
            assert(self@.cached =~= before@.cached.remove(handle));
        }
        Ok(())
    }

    /// Registers `handle`. How its client reads is found out here, so the
    /// outcome is stated for either reading: a client without an entry is
    /// always accepted; one with an entry is turned down only if it read
    /// alive, and then nothing changes.
    pub fn register(&mut self, handle: ClientHandle<T>) -> (outcome: Result<(), AlreadyRegistered>)
        ensures
            !old(self)@.has_entry(handle) ==> outcome is Ok,
            outcome is Ok ==> final(self)@ == old(self)@.enrol(handle),
            outcome is Err ==> final(self)@ == old(self)@,
            final(self)@.wf(),
    {
        let alive = handle.is_alive();
        self.register_with(handle, alive)
    }

    /// Stores `value` as the checkpoint of `who`, given how `who` was read.
    /// Unless `who` has an entry and was read alive, nothing changes and
    /// `value` is dropped.
    pub fn checkpoint_with(&mut self, who: &ClientHandle<T>, value: T, alive: bool)
        ensures
            final(self)@ == old(self)@.checkpoint(*who, value, alive),
            final(self)@.wf(),
    {
        proof {
            use_type_invariant(&*self);
        }
        let ghost before = *self;
        if !alive {
            return ;
        }
        match position(&self.clients, who) {
            None => {},
            Some(at) => {
                let mut clients = Vec::new();
                std::mem::swap(&mut clients, &mut self.clients);
                clients[at].checkpoint = Some(value);
                proof {
                    lemma_replaced(before.clients@, at as int, clients@[at as int]);
                }
                self.clients = clients;
                proof {
                    assert(self@.cached =~= before@.cached.insert(*who, value));
                }
            },
        }
    }

    /// Stores `value` as the checkpoint of `who` if `who` is a client right
    /// now; otherwise nothing changes. For a client without an entry nothing
    /// changes whatever the reading.
    pub fn checkpoint(&mut self, who: &ClientHandle<T>, value: T)
        ensures
            final(self)@ == old(self)@ || final(self)@ == old(self)@.checkpoint(*who, value, true),
            !old(self)@.has_entry(*who) ==> final(self)@ == old(self)@,
            final(self)@.wf(),
    {
        let alive = who.is_alive();
        self.checkpoint_with(who, value, alive)
    }

    /// Takes the checkpoint of `who` out of the cache. Liveness plays no
    /// part: the checkpoint of a dead client, or of one whose entry a sweep
    /// has removed, is handed out like any other. A checkpoint is handed out
    /// once; to keep it cached, store it again.
    pub fn read_checkpoint(&mut self, who: &ClientHandle<T>) -> (value: Option<T>)
        ensures
            value == old(self)@.cached_value(*who),
            final(self)@ == old(self)@.read_checkpoint(*who),
            final(self)@.wf(),
    {
        proof {
            use_type_invariant(&*self);
        }
        let ghost before = *self;
        let value = match position(&self.clients, who) {
            Some(at) => {
                let mut clients = Vec::new();
                std::mem::swap(&mut clients, &mut self.clients);
                let value = clients[at].checkpoint.take();
                proof {
                    lemma_stored_at(before.clients@, at as int);
                    lemma_replaced(before.clients@, at as int, clients@[at as int]);
                }
                self.clients = clients;
                value
            },
            None => {
                match position(&self.left_behind, who) {
                    Some(at) => {
                        let mut left_behind = Vec::new();
                        std::mem::swap(&mut left_behind, &mut self.left_behind);
                        let entry = left_behind.remove(at);
                        proof {
                            lemma_stored_at(before.left_behind@, at as int);
                            lemma_removed(before.left_behind@, at as int);
                        }
                        self.left_behind = left_behind;
                        entry.checkpoint
                    },
                    None => None,
                }
            },
        };
        proof {
            assert(self@.cached =~= before@.cached.remove(*who));
        }
        value
    }

    /// Reads every entry's client once, in entry order: `true` where the
    /// client was alive at the moment it was read.
    pub fn census(&self) -> (readings: Vec<bool>)
        ensures
            readings.len() == self@.members.len(),
            self@.wf(),
    {
        proof {
            use_type_invariant(self);
        }
        let mut readings: Vec<bool> = Vec::new();
        let mut at: usize = 0;
        while at < self.clients.len()
            invariant
                at <= self.clients.len(),
                readings.len() == at,
            decreases self.clients.len() - at,
        {
            readings.push(self.clients[at].pointer.is_alive());
            at += 1;
        }
        readings
    }

    /// Removes the entries that `census` reads as dead; an entry that the
    /// census does not cover counts as dead. The entries that stay keep their
    /// order, and no checkpoint is lost: that of a removed entry can still be
    /// read.
    pub fn sweep_with(&mut self, census: &Vec<bool>)
        ensures
            final(self)@ == old(self)@.sweep(census@),
            final(self)@.wf(),
    {
        proof {
            use_type_invariant(&*self);
        }
        let ghost before = *self;
        let ghost all = before.clients@;
        let mut entries = Vec::new();
        let mut left_behind = Vec::new();
        std::mem::swap(&mut entries, &mut self.clients);
        std::mem::swap(&mut left_behind, &mut self.left_behind);
        let mut kept: Vec<ServerSideClientObj<T>> = Vec::new();
        let mut at: usize = 0;
        proof {
            assert(all.len() == entries.len());
            assert(all.skip(0) =~= all);
        }
        for entry in turn: entries
            invariant
                turn.seq() == all,
                at == turn.index(),
                at <= all.len() <= usize::MAX,
                handles(kept@) == survivors(handles(all).take(at as int), census@),
                handles(kept@).no_duplicates(),
                handles(left_behind@).no_duplicates(),
                handles(all.skip(at as int)).no_duplicates(),
                forall|who: ClientHandle<T>| #[trigger]
                    handles(kept@).contains(who) ==> !handles(all.skip(at as int)).contains(who),
                forall|who: ClientHandle<T>| #[trigger]
                    handles(left_behind@).contains(who) ==> !handles(kept@).contains(who)
                        && !handles(all.skip(at as int)).contains(who) && stored(
                        left_behind@,
                        who,
                    ) is Some,
                forall|who: ClientHandle<T>|
                    before.held(who) == #[trigger] held_in(
                        kept@,
                        all.skip(at as int),
                        left_behind@,
                        who,
                    ),
        {
            let ghost rest = all.skip(at as int);
            let ghost kept_before = kept@;
            let ghost left_before = left_behind@;
            proof {
                assert(rest.remove(0) =~= all.skip(at + 1));
                assert(handles(all).take(at + 1).drop_last() =~= handles(all).take(at as int));
                lemma_stored_at(rest, 0);
                lemma_removed(rest, 0);
            }
            if at < census.len() && census[at] {
                proof {
                    lemma_pushed(kept@, entry);
                }
                kept.push(entry);
            } else if entry.checkpoint.is_some() {
                proof {
                    lemma_pushed(left_behind@, entry);
                }
                left_behind.push(entry);
            }
            proof {
                assert forall|who: ClientHandle<T>|
                    before.held(who) == #[trigger] held_in(
                        kept@,
                        all.skip(at + 1),
                        left_behind@,
                        who,
                    ) by {
                    assert(before.held(who) == held_in(kept_before, rest, left_before, who));
                }
            }
            at += 1;
        }
        self.clients = kept;
        self.left_behind = left_behind;
        proof {
            assert(handles(all).take(at as int) =~= handles(all));
            assert forall|who: ClientHandle<T>| self.held(who) == before.held(who) by {
                assert(before.held(who) == held_in(kept@, all.skip(at as int), left_behind@, who));
            }
            assert(self@.cached =~= before@.cached);
        }
    }

    /// Removes the entries of the clients that are dead right now. What
    /// "now" means is one census, taken here: the result is that of
    /// [`Server::sweep_with`] on some reading of every entry. Whatever was
    /// read, no checkpoint is lost and no entry is added.
    pub fn sweep(&mut self)
        ensures
            exists|census: Seq<bool>|
                census.len() == old(self)@.members.len() && final(self)@ == #[trigger] old(
                    self,
                )@.sweep(census),
            final(self)@.cached == old(self)@.cached,
            final(self)@.members.len() <= old(self)@.members.len(),
            forall|who: ClientHandle<T>| #[trigger]
                final(self)@.has_entry(who) ==> old(self)@.has_entry(who),
            final(self)@.wf(),
    {
        let census = self.census();
        proof {
            lemma_survivors(self@.members, census@);
        }
        self.sweep_with(&census);
    }
}

} // verus!
