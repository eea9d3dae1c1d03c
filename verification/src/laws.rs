//! What holds of every registry, whatever happened to it before.
//!
//! Each law is stated over [`Registry`], the value that the contracts of
//! [`Server`](crate::server::Server) speak of, and holds for every reading of
//! the outside world that it does not name.

use crate::handle::ClientHandle;
use crate::registry::{lemma_survivors, reads_alive, Operation, Registry};
use vstd::prelude::*;

verus! {

/// A client that was read dead is never reported as a client, whether or not
/// it still has an entry.
pub proof fn law_dead_client_is_not_found<T>(registry: Registry<T>, who: ClientHandle<T>)
    ensures
        !registry.has_client(who, false),
{
}

/// Once a sweep has read a client dead, the client has no entry left, and is
/// not a client whatever a later reading says, true or not.
pub proof fn law_swept_client_is_gone<T>(
    registry: Registry<T>,
    census: Seq<bool>,
    who: ClientHandle<T>,
    later_reading: bool,
)
    requires
        registry.wf(),
        forall|i: int|
            0 <= i < registry.members.len() && registry.members[i] == who ==> !reads_alive(
                census,
                i,
            ),
    ensures
        registry.sweep(census).wf(),
        !registry.sweep(census).has_entry(who),
        !registry.sweep(census).has_client(who, later_reading),
{
    lemma_survivors(registry.members, census);
}

/// Whether `operation` registers `who`.
pub open spec fn registers<T>(operation: Operation<T>, who: ClientHandle<T>) -> bool {
    operation matches Operation::Register { who: registered, .. } && registered == who
}

/// No operation gives a client a second entry, and only its own
/// registration gives it a first one.
pub proof fn law_entries_come_from_registration<T>(
    registry: Registry<T>,
    operation: Operation<T>,
    who: ClientHandle<T>,
)
    requires
        registry.wf(),
    ensures
        registry.apply(operation).wf(),
        !registers(operation, who) && registry.apply(operation).has_entry(who)
            ==> registry.has_entry(who),
{
    match operation {
        Operation::Register { who: registered, alive } => {
            registry.lemma_enrol(registered);
        },
        Operation::Sweep { census } => {
            lemma_survivors(registry.members, census);
        },
        _ => {},
    }
}

/// Whatever the operations and the readings they were decided on, no client
/// ever has two entries. And a client that a sweep has read dead stays out
/// through every sequence of operations that does not register it again: it
/// is not a client at the end, whatever the last reading says.
pub proof fn law_swept_client_stays_out<T>(
    registry: Registry<T>,
    census: Seq<bool>,
    who: ClientHandle<T>,
    later: Seq<Operation<T>>,
    last_reading: bool,
)
    requires
        registry.wf(),
        forall|i: int|
            0 <= i < registry.members.len() && registry.members[i] == who ==> !reads_alive(
                census,
                i,
            ),
        forall|k: int| 0 <= k < later.len() ==> !registers(#[trigger] later[k], who),
    ensures
        registry.sweep(census).apply_all(later).wf(),
        !registry.sweep(census).apply_all(later).has_entry(who),
        !registry.sweep(census).apply_all(later).has_client(who, last_reading),
    decreases later.len(),
{
    if later.len() == 0 {
        lemma_survivors(registry.members, census);
    } else {
        let earlier = later.drop_last();
        assert forall|k: int| 0 <= k < earlier.len() implies !registers(
            #[trigger] earlier[k],
            who,
        ) by {
            assert(earlier[k] == later[k]);
        }
        law_swept_client_stays_out(registry, census, who, earlier, last_reading);
        law_entries_come_from_registration(
            registry.sweep(census).apply_all(earlier),
            later.last(),
            who,
        );
    }
}

/// A sweep removes nobody that it read alive: a client with an entry at a
/// place that the census reads alive is still a client after the sweep.
pub proof fn law_sweep_spares_the_living<T>(registry: Registry<T>, census: Seq<bool>, at: int)
    requires
        registry.wf(),
        0 <= at < registry.members.len(),
        reads_alive(census, at),
    ensures
        registry.sweep(census).has_client(registry.members[at], true),
{
    lemma_survivors(registry.members, census);
}

/// After a registration that was accepted, a second one for the same client
/// is turned down as long as the client is read alive, and changes nothing.
/// Once the client is read dead, registering it again succeeds, and it still
/// has one entry only.
pub proof fn law_second_registration<T>(
    registry: Registry<T>,
    who: ClientHandle<T>,
    first_reading: bool,
)
    requires
        registry.wf(),
        !registry.refuses(who, first_reading),
    ensures
        registry.register(who, first_reading).refuses(who, true),
        registry.register(who, first_reading).register(who, true) == registry.register(
            who,
            first_reading,
        ),
        !registry.register(who, first_reading).refuses(who, false),
        registry.register(who, first_reading).register(who, false).wf(),
        registry.register(who, first_reading).register(who, false).entries_for(who) == 1,
{
    let once = registry.register(who, first_reading);
    registry.lemma_enrol(who);
    once.lemma_enrol(who);
}

/// Whether `operation` is about `who`: registers it, or stores or reads its
/// checkpoint. A sweep is about nobody.
pub open spec fn concerns<T>(operation: Operation<T>, who: ClientHandle<T>) -> bool {
    match operation {
        Operation::Register { who: named, .. } => named == who,
        Operation::Checkpoint { who: named, .. } => named == who,
        Operation::ReadCheckpoint { who: named } => named == who,
        Operation::Sweep { .. } => false,
    }
}

/// A checkpoint stored for a client is the one read back. That holds also
/// after the client has died: through any number of sweeps, whatever they
/// read, and through whatever is done for other clients in between. It is
/// read back once: the read takes it out.
pub proof fn law_checkpoint_is_read_back<T>(
    registry: Registry<T>,
    who: ClientHandle<T>,
    value: T,
    later: Seq<Operation<T>>,
)
    requires
        registry.has_entry(who),
        forall|k: int| 0 <= k < later.len() ==> !concerns(#[trigger] later[k], who),
    ensures
        registry.checkpoint(who, value, true).apply_all(later).cached_value(who) == Some(value),
        registry.checkpoint(who, value, true).apply_all(later).read_checkpoint(who).cached_value(
            who,
        ) is None,
    decreases later.len(),
{
    if later.len() > 0 {
        let earlier = later.drop_last();
        assert forall|k: int| 0 <= k < earlier.len() implies !concerns(
            #[trigger] earlier[k],
            who,
        ) by {
            assert(earlier[k] == later[k]);
        }
        law_checkpoint_is_read_back(registry, who, value, earlier);
        assert(!concerns(later.last(), who));
    }
}

/// A checkpoint offered for a client that has no entry, or that was read
/// dead, changes nothing: what was cached before is still what is read.
pub proof fn law_stale_checkpoint_is_dropped<T>(
    registry: Registry<T>,
    who: ClientHandle<T>,
    value: T,
    alive: bool,
)
    requires
        !registry.has_entry(who) || !alive,
    ensures
        registry.checkpoint(who, value, alive) == registry,
{
}

/// A sweep and the registration of a client that had no entry, in either
/// order, end with exactly one entry for that client: the registration is
/// not lost. Where the registration comes first, the sweep reads the new
/// entry, which stands last, like any other; the law speaks of a census that
/// reads it alive.
pub proof fn law_registration_survives_sweep<T>(
    registry: Registry<T>,
    who: ClientHandle<T>,
    reading: bool,
    census: Seq<bool>,
)
    requires
        registry.wf(),
        !registry.has_entry(who),
    ensures
        registry.sweep(census).register(who, reading).entries_for(who) == 1,
        reads_alive(census, registry.members.len() as int) ==> registry.register(
            who,
            reading,
        ).sweep(census).entries_for(who) == 1,
{
    let swept = registry.sweep(census);
    lemma_survivors(registry.members, census);
    swept.lemma_enrol(who);

    let entered = registry.register(who, reading);
    registry.lemma_enrol(who);
    lemma_survivors(entered.members, census);
    if reads_alive(census, registry.members.len() as int) {
        assert(entered.members[registry.members.len() as int] == who);
        entered.sweep(census).lemma_one_entry(who);
    }
}

} // verus!
