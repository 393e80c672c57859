use luau_behavior::dod::{convert_chunk_to_dod, DODArray, DODStorage, LANE_BYTES};
use luau_behavior::dod_store::{live_in, update_simulated_entities, ArchetypeInfo, DODStore};

fn info(id: usize, len: usize, has_position: bool, has_velocity: bool) -> ArchetypeInfo {
    ArchetypeInfo { id, len, has_position, has_velocity }
}

#[test]
fn convert_chunk_gives_zeroed_lanes() {
    let s = convert_chunk_to_dod(3);
    assert_eq!(s.pos.bytes, vec![0u8; 48]);
    assert_eq!(s.vel.bytes, vec![0u8; 48]);
    assert_eq!(s.lane_count(), 3);
    assert!(s.velocity_covers_positions());
    assert_eq!(LANE_BYTES, 16);
}

#[test]
fn convert_empty_chunk() {
    let s = convert_chunk_to_dod(0);
    assert!(s.pos.bytes.is_empty());
    assert!(s.vel.bytes.is_empty());
    assert_eq!(s.lane_count(), 0);
}

#[test]
fn lane_count_ignores_partial_lane() {
    let s = DODStorage {
        pos: DODArray { bytes: vec![0u8; 35] },
        vel: DODArray { bytes: vec![0u8; 16] },
    };
    assert_eq!(s.lane_count(), 2);
    assert!(!s.velocity_covers_positions());
}

#[test]
fn prepare_selects_large_moving_archetypes() {
    let mut store = DODStore::new();
    let infos = vec![
        info(1, 1000, true, true),
        info(2, 999, true, true),
        info(3, 5000, true, false),
        info(4, 2000, false, true),
        info(5, 1200, true, true),
    ];
    let ids = store.prepare(&infos);
    assert_eq!(ids, vec![1, 5]);
    assert!(store.contains(1));
    assert!(store.contains(5));
    assert!(!store.contains(2));
    assert!(!store.contains(3));
    let s = store.storage_mut(5).unwrap();
    assert_eq!(s.pos.bytes.len(), 1200 * 16);
    assert_eq!(s.vel.bytes.len(), 1200 * 16);
    assert!(s.pos.bytes.iter().all(|b| *b == 0));
}

#[test]
fn prepare_keeps_existing_storage() {
    let mut store = DODStore::new();
    let infos = vec![info(9, 1000, true, true)];
    store.prepare(&infos);
    store.storage_mut(9).unwrap().pos.bytes[0] = 7;
    let bigger = vec![info(9, 4000, true, true)];
    let ids = store.prepare(&bigger);
    assert_eq!(ids, vec![9]);
    let s = store.storage_mut(9).unwrap();
    assert_eq!(s.pos.bytes[0], 7);
    assert_eq!(s.pos.bytes.len(), 16000);
}

#[test]
fn storage_mut_of_unknown_archetype_is_none() {
    let mut store = DODStore::new();
    assert!(store.storage_mut(4).is_none());
}

#[test]
fn retain_live_drops_small_and_missing_archetypes() {
    let mut store = DODStore::new();
    store.prepare(&vec![info(1, 1000, true, true), info(2, 1000, true, true), info(3, 1000, true, true)]);
    store.storage_mut(3).unwrap().vel.bytes[5] = 1;
    let now = vec![info(1, 10, true, true), info(3, 3000, true, true)];
    store.retain_live(&now);
    assert!(!store.contains(1));
    assert!(!store.contains(2));
    assert!(store.contains(3));
    assert_eq!(store.storage_mut(3).unwrap().vel.bytes[5], 1);
    assert_eq!(store.ids(), vec![3]);
}

#[test]
fn live_in_needs_a_large_archetype() {
    let infos = vec![info(1, 999, true, true), info(2, 1000, false, false)];
    assert!(!live_in(&infos, 1));
    assert!(live_in(&infos, 2));
    assert!(!live_in(&infos, 3));
}

#[test]
fn frame_update_prepares_and_retains() {
    let mut store = DODStore::new();
    update_simulated_entities(&mut store, &vec![info(1, 1500, true, true), info(2, 1500, true, true)]);
    let ids = update_simulated_entities(&mut store, &vec![info(2, 1500, true, true), info(6, 2500, true, true)]);
    assert_eq!(ids, vec![2, 6]);
    assert!(!store.contains(1));
    assert!(store.contains(2));
    assert!(store.contains(6));
    let mut all = store.ids();
    all.sort();
    assert_eq!(all, vec![2, 6]);
}
