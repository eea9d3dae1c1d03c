//! The registry as a mathematical value.
//!
//! A [`Registry`] is what a server knows of its clients at one moment: who has
//! an entry, in the order they were entered, and which checkpoint is cached
//! for whom. A client is named by its [`ClientHandle`]: two handles are equal
//! exactly when they point to the same payload, whatever the payload holds.
//!
//! Whether a client is still alive is not part of the registry. Liveness is a
//! fact about the outside world, so every transition below that depends on it
//! takes the reading as an argument: a `bool` for one client, a census
//! (`Seq<bool>`, one reading per entry) for all of them.

use crate::handle::ClientHandle;
use vstd::prelude::*;
use vstd::seq_lib::to_multiset_contains;

verus! {

/// What a server knows of its clients.
#[verifier::reject_recursive_types(T)]
pub struct Registry<T> {
    /// The clients that have an entry, oldest first.
    pub members: Seq<ClientHandle<T>>,
    /// The cached checkpoints, by client. A client may have a checkpoint
    /// without having an entry: checkpoints outlive a sweep.
    pub cached: Map<ClientHandle<T>, T>,
}

/// One operation on a registry, with the readings it is decided on.
#[verifier::reject_recursive_types(T)]
pub enum Operation<T> {
    /// `who` asks for an entry and is read as `alive`.
    Register { who: ClientHandle<T>, alive: bool },
    /// `value` is offered as the checkpoint of `who`, read as `alive`.
    Checkpoint { who: ClientHandle<T>, value: T, alive: bool },
    /// The checkpoint of `who` is taken out.
    ReadCheckpoint { who: ClientHandle<T> },
    /// Every entry is read, and those read dead are removed.
    Sweep { census: Seq<bool> },
}

/// Whether `census` reads entry `i` as alive. An entry that the census does
/// not cover counts as dead.
pub open spec fn reads_alive(census: Seq<bool>, i: int) -> bool {
    0 <= i < census.len() && census[i]
}

/// The items that `census` reads as alive, in their old order.
pub open spec fn survivors<A>(items: Seq<A>, census: Seq<bool>) -> Seq<A>
    decreases items.len(),
{
    if items.len() == 0 {
        Seq::empty()
    } else {
        let earlier = survivors(items.drop_last(), census);
        if reads_alive(census, items.len() - 1) {
            earlier.push(items.last())
        } else {
            earlier
        }
    }
}

/// Whether `x` stands in `items` at a place that `census` reads as alive.
pub open spec fn survives<A>(items: Seq<A>, census: Seq<bool>, x: A) -> bool {
    exists|i: int| 0 <= i < items.len() && items[i] == x && #[trigger] reads_alive(census, i)
}

/// What a census keeps: exactly the items that stand at a place it reads as
/// alive, and each of them as often as before.
pub proof fn lemma_survivors<A>(items: Seq<A>, census: Seq<bool>)
    ensures
        survivors(items, census).len() <= items.len(),
        forall|x: A|
            #[trigger] survivors(items, census).contains(x) <==> survives(items, census, x),
        items.no_duplicates() ==> survivors(items, census).no_duplicates(),
    decreases items.len(),
{
    if items.len() > 0 {
        let last = items.len() - 1;
        let earlier = items.drop_last();
        let kept = survivors(earlier, census);
        lemma_survivors(earlier, census);
        assert forall|x: A| #[trigger]
            survivors(items, census).contains(x) <==> survives(items, census, x) by {
            if reads_alive(census, last) {
                if kept.contains(x) {
                    assert(kept.push(items.last())[kept.index_of(x)] == x);
                }
                if items[last] == x {
                    assert(kept.push(items.last())[kept.len() as int] == x);
                }
            }
        }
        if items.no_duplicates() {
            assert(earlier.no_duplicates());
            if reads_alive(census, last) {
                assert(!kept.contains(items[last])) by {
                    if survives(earlier, census, items[last]) {
                        let i = choose|i: int|
                            0 <= i < earlier.len() && earlier[i] == items[last]
                                && #[trigger] reads_alive(census, i);
                        assert(items[i] == items[last]);
                    }
                }
                assert(kept.push(items[last]).no_duplicates());
            }
        }
    }
}

impl<T> Registry<T> {
    /// The registry of a server that has seen no client yet.
    pub open spec fn empty() -> Self {
        Registry { members: Seq::empty(), cached: Map::empty() }
    }

    /// No client has two entries.
    pub open spec fn wf(self) -> bool {
        self.members.no_duplicates()
    }

    /// Whether `who` has an entry, alive or not.
    pub open spec fn has_entry(self, who: ClientHandle<T>) -> bool {
        self.members.contains(who)
    }

    /// How many entries `who` has.
    pub open spec fn entries_for(self, who: ClientHandle<T>) -> nat {
        self.members.to_multiset().count(who)
    }

    /// Whether `who` is a client of the server: it has an entry and was read
    /// alive.
    pub open spec fn has_client(self, who: ClientHandle<T>, alive: bool) -> bool {
        alive && self.has_entry(who)
    }

    /// Whether a registration of `who` is turned down: exactly where `who`
    /// is a client already.
    pub open spec fn refuses(self, who: ClientHandle<T>, alive: bool) -> bool {
        self.has_client(who, alive)
    }

    /// The registry after `who` was entered. A first entry goes to the end;
    /// an entry that was already there is replaced where it stands. Either
    /// way the new entry starts without a checkpoint.
    pub open spec fn enrol(self, who: ClientHandle<T>) -> Self {
        Registry {
            members: if self.has_entry(who) {
                self.members
            } else {
                self.members.push(who)
            },
            cached: self.cached.remove(who),
        }
    }

    /// The registry after an attempt to register `who`, read as `alive`.
    pub open spec fn register(self, who: ClientHandle<T>, alive: bool) -> Self {
        if self.refuses(who, alive) {
            self
        } else {
            self.enrol(who)
        }
    }

    /// The registry after `value` was offered as the checkpoint of `who`, read
    /// as `alive`. The offer is dropped unless `who` is a client.
    pub open spec fn checkpoint(self, who: ClientHandle<T>, value: T, alive: bool) -> Self {
        if self.has_client(who, alive) {
            Registry { members: self.members, cached: self.cached.insert(who, value) }
        } else {
            self
        }
    }

    /// The checkpoint cached for `who`, if there is one.
    pub open spec fn cached_value(self, who: ClientHandle<T>) -> Option<T> {
        if self.cached.contains_key(who) {
            Some(self.cached[who])
        } else {
            None
        }
    }

    /// The registry after the checkpoint of `who` was taken out.
    pub open spec fn read_checkpoint(self, who: ClientHandle<T>) -> Self {
        Registry { members: self.members, cached: self.cached.remove(who) }
    }

    /// The registry after a sweep on `census`: the entries read dead are gone,
    /// the others keep their order, and every checkpoint stays.
    pub open spec fn sweep(self, census: Seq<bool>) -> Self {
        Registry { members: survivors(self.members, census), cached: self.cached }
    }

    /// The registry after `operation`.
    pub open spec fn apply(self, operation: Operation<T>) -> Self {
        match operation {
            Operation::Register { who, alive } => self.register(who, alive),
            Operation::Checkpoint { who, value, alive } => self.checkpoint(who, value, alive),
            Operation::ReadCheckpoint { who } => self.read_checkpoint(who),
            Operation::Sweep { census } => self.sweep(census),
        }
    }

    /// The registry after `operations`, one after the other.
    pub open spec fn apply_all(self, operations: Seq<Operation<T>>) -> Self
        decreases operations.len(),
    {
        if operations.len() == 0 {
            self
        } else {
            self.apply_all(operations.drop_last()).apply(operations.last())
        }
    }

    /// In a registry where no client has two entries, a client with an entry
    /// has exactly one.
    pub proof fn lemma_one_entry(self, who: ClientHandle<T>)
        requires
            self.wf(),
        ensures
            self.entries_for(who) == if self.has_entry(who) {
                1nat
            } else {
                0nat
            },
    {
        self.members.lemma_multiset_has_no_duplicates();
        to_multiset_contains(self.members, who);
    }

    /// Entering a client keeps the registry in order, and the client then has
    /// its one entry.
    pub proof fn lemma_enrol(self, who: ClientHandle<T>)
        requires
            self.wf(),
        ensures
            self.enrol(who).wf(),
            self.enrol(who).has_entry(who),
            self.enrol(who).entries_for(who) == 1,
            forall|other: ClientHandle<T>|
                other != who ==> (#[trigger] self.enrol(who).has_entry(other)
                    <==> self.has_entry(other)),
    {
        let entered = self.enrol(who);
        if !self.has_entry(who) {
            assert(entered.members[self.members.len() as int] == who);
            assert forall|other: ClientHandle<T>| other != who implies (
            #[trigger] entered.has_entry(other) <==> self.has_entry(other)) by {
                if self.has_entry(other) {
                    assert(entered.members[self.members.index_of(other)] == other);
                }
            }
        }
        entered.lemma_one_entry(who);
    }
}

} // verus!
