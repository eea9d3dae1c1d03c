use ssfscg::{AlreadyRegistered, ClientHandle, Server};
use std::sync::{Arc, Mutex};

fn owners(count: u32) -> Vec<Arc<Mutex<u32>>> {
    (0..count).map(|n| Arc::new(Mutex::new(n))).collect()
}

fn filled(owners: &[Arc<Mutex<u32>>]) -> (Server<u32>, Vec<ClientHandle<u32>>) {
    let mut server = Server::new();
    let handles: Vec<_> = owners.iter().map(ClientHandle::new).collect();
    for handle in &handles {
        assert_eq!(server.register_with(handle.clone(), true), Ok(()));
    }
    (server, handles)
}

#[test]
fn new_server_is_empty() {
    let server = Server::<u32>::new();
    assert_eq!(server.len(), 0);
    assert_eq!(server.census(), Vec::<bool>::new());
}

#[test]
fn has_client_with_needs_an_entry_and_a_live_reading() {
    let owners = owners(2);
    let (server, handles) = filled(&owners[..1]);
    let stranger = ClientHandle::new(&owners[1]);
    assert!(server.has_client_with(&handles[0], true));
    assert!(!server.has_client_with(&handles[0], false));
    assert!(!server.has_client_with(&stranger, true));
    assert!(!server.has_client_with(&stranger, false));
}

#[test]
fn register_with_decides_on_the_reading() {
    let owners = owners(2);
    let (mut server, handles) = filled(&owners[..1]);
    assert_eq!(server.register_with(handles[0].clone(), true), Err(AlreadyRegistered));
    assert_eq!(server.len(), 1);
    assert_eq!(server.register_with(handles[0].clone(), false), Ok(()));
    assert_eq!(server.len(), 1);
    // Without an entry the reading does not matter.
    let stranger = ClientHandle::new(&owners[1]);
    assert_eq!(server.register_with(stranger.clone(), false), Ok(()));
    assert_eq!(server.len(), 2);
    assert!(server.has_entry(&stranger));
}

#[test]
fn register_with_refusal_keeps_the_checkpoint() {
    let owners = owners(1);
    let (mut server, handles) = filled(&owners);
    server.checkpoint_with(&handles[0], 11, true);
    assert_eq!(server.register_with(handles[0].clone(), true), Err(AlreadyRegistered));
    assert_eq!(server.read_checkpoint(&handles[0]), Some(11));
}

#[test]
fn register_with_over_a_dead_entry_clears_the_checkpoint() {
    let owners = owners(1);
    let (mut server, handles) = filled(&owners);
    server.checkpoint_with(&handles[0], 11, true);
    assert_eq!(server.register_with(handles[0].clone(), false), Ok(()));
    assert_eq!(server.read_checkpoint(&handles[0]), None);
}

#[test]
fn checkpoint_with_stores_for_live_clients_only() {
    let owners = owners(2);
    let (mut server, handles) = filled(&owners[..1]);
    let stranger = ClientHandle::new(&owners[1]);
    server.checkpoint_with(&stranger, 1, true);
    assert_eq!(server.read_checkpoint(&stranger), None);
    server.checkpoint_with(&handles[0], 2, false);
    assert_eq!(server.read_checkpoint(&handles[0]), None);
    server.checkpoint_with(&handles[0], 3, true);
    server.checkpoint_with(&handles[0], 4, false);
    assert_eq!(server.read_checkpoint(&handles[0]), Some(3));
}

#[test]
fn checkpoint_with_replaces_the_older_value() {
    let owners = owners(2);
    let (mut server, handles) = filled(&owners);
    server.checkpoint_with(&handles[0], 10, true);
    server.checkpoint_with(&handles[1], 20, true);
    server.checkpoint_with(&handles[0], 30, true);
    assert_eq!(server.read_checkpoint(&handles[1]), Some(20));
    assert_eq!(server.read_checkpoint(&handles[0]), Some(30));
    assert_eq!(server.read_checkpoint(&handles[0]), None);
    assert_eq!(server.read_checkpoint(&handles[1]), None);
}

#[test]
fn sweep_with_removes_what_the_census_reads_dead() {
    let owners = owners(5);
    let (mut server, handles) = filled(&owners);
    for (n, handle) in handles.iter().enumerate() {
        server.checkpoint_with(handle, 100 + n as u32, true);
    }
    server.sweep_with(&vec![true, false, false, true, false]);
    assert_eq!(server.len(), 2);
    let stays = [true, false, false, true, false];
    for (n, handle) in handles.iter().enumerate() {
        assert_eq!(server.has_entry(handle), stays[n]);
        assert_eq!(server.has_client_with(handle, true), stays[n]);
    }
    // The second sweep reads the two survivors, in their old order.
    server.sweep_with(&vec![false, true]);
    assert_eq!(server.len(), 1);
    assert!(server.has_entry(&handles[3]));
    assert!(!server.has_entry(&handles[0]));
    // Every checkpoint is still there, whoever was swept.
    for (n, handle) in handles.iter().enumerate() {
        assert_eq!(server.read_checkpoint(handle), Some(100 + n as u32));
        assert_eq!(server.read_checkpoint(handle), None);
    }
}

#[test]
fn sweep_with_counts_an_entry_without_a_reading_as_dead() {
    let owners = owners(3);
    let (mut server, handles) = filled(&owners);
    server.sweep_with(&vec![true]);
    assert_eq!(server.len(), 1);
    assert!(server.has_entry(&handles[0]));
    server.sweep_with(&vec![]);
    assert_eq!(server.len(), 0);
}

#[test]
fn sweep_with_ignores_readings_beyond_the_entries() {
    let owners = owners(2);
    let (mut server, handles) = filled(&owners);
    server.sweep_with(&vec![true, true, false, true]);
    assert_eq!(server.len(), 2);
    assert!(server.has_entry(&handles[0]) && server.has_entry(&handles[1]));
}

#[test]
fn sweep_with_all_alive_changes_nothing() {
    let owners = owners(3);
    let (mut server, handles) = filled(&owners);
    server.sweep_with(&vec![true, true, true]);
    assert_eq!(server.len(), 3);
    assert_eq!(server.census(), vec![true, true, true]);
    drop(owners);
    assert_eq!(server.census(), vec![false, false, false]);
    assert!(handles.iter().all(|handle| server.has_entry(handle)));
}

#[test]
fn swept_checkpoint_is_dropped_by_a_new_registration() {
    let owners = owners(1);
    let (mut server, handles) = filled(&owners);
    server.checkpoint_with(&handles[0], 5, true);
    server.sweep_with(&vec![false]);
    assert_eq!(server.register_with(handles[0].clone(), true), Ok(()));
    assert_eq!(server.read_checkpoint(&handles[0]), None);
    assert_eq!(server.len(), 1);
}

#[test]
fn census_reads_each_entry_in_order() {
    let mut owners: Vec<Option<Arc<Mutex<u32>>>> = owners(4).into_iter().map(Some).collect();
    let mut server = Server::new();
    for owner in owners.iter().flatten() {
        assert_eq!(server.register(ClientHandle::new(owner)), Ok(()));
    }
    assert_eq!(server.census(), vec![true, true, true, true]);
    owners[1] = None;
    assert_eq!(server.census(), vec![true, false, true, true]);
    owners[3] = None;
    assert_eq!(server.census(), vec![true, false, true, false]);
}

#[test]
fn clients_lists_the_entries_with_their_checkpoints() {
    let owners = owners(3);
    let (mut server, handles) = filled(&owners);
    server.checkpoint_with(&handles[1], 21, true);
    {
        let entries = server.clients();
        assert_eq!(entries.len(), 3);
        for (entry, handle) in entries.iter().zip(&handles) {
            assert!(entry.pointer == *handle);
        }
        assert_eq!(entries[0].checkpoint, None);
        assert_eq!(entries[1].checkpoint, Some(21));
        assert_eq!(entries[2].checkpoint, None);
    }
    server.sweep_with(&vec![false, true, true]);
    let entries = server.clients();
    assert_eq!(entries.len(), 2);
    assert!(entries[0].pointer == handles[1]);
    assert!(entries[1].pointer == handles[2]);
    assert_eq!(entries[0].checkpoint, Some(21));
}

#[test]
fn sweep_with_many_entries_keeps_every_other_one() {
    let owners = owners(200);
    let (mut server, handles) = filled(&owners);
    for (n, handle) in handles.iter().enumerate() {
        if n % 3 == 0 {
            server.checkpoint_with(handle, n as u32, true);
        }
    }
    let census: Vec<bool> = (0..200).map(|n| n % 2 == 0).collect();
    server.sweep_with(&census);
    assert_eq!(server.len(), 100);
    for (place, entry) in server.clients().iter().enumerate() {
        assert!(entry.pointer == handles[2 * place]);
    }
    for (n, handle) in handles.iter().enumerate() {
        assert_eq!(server.has_entry(handle), n % 2 == 0);
        let expected = if n % 3 == 0 { Some(n as u32) } else { None };
        assert_eq!(server.read_checkpoint(handle), expected);
    }
}
