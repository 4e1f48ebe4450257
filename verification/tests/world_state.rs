use sl_viewer_world_api::ids::ScopedObjectId;
use sl_viewer_world_api::world_state::{DerenderEntry, DerenderKind, DerenderList, HiddenBy};

fn entry(id: u128, kind: DerenderKind, permanent: bool, name: &str) -> DerenderEntry {
    DerenderEntry {
        id,
        name: name.to_string(),
        region: String::new(),
        kind,
        permanent,
        added_epoch_secs: 1_700_000_000,
    }
}

fn scoped(circuit: u32, id: u32) -> ScopedObjectId {
    ScopedObjectId { circuit, id }
}

#[test]
fn a_derendered_object_is_blacklisted_and_queued_for_purge() {
    let mut list = DerenderList::default();
    list.add(entry(0xA, DerenderKind::Object, true, "Tree"));
    assert!(list.blacklists(0xA, DerenderKind::Object));
    assert!(!list.blacklists(0xA, DerenderKind::Texture));
    assert!(list.blacklists_in_world(0xA));
    assert!(list.hides_in_world(0xA));
    assert_eq!(list.pending_ids, vec![HiddenBy::Blacklist(0xA)]);
    assert_eq!(list.revision(), 1);
    assert!(list.dirty, "a permanent entry marks the stored list dirty");
}

#[test]
fn an_asset_kind_is_not_in_world() {
    let mut list = DerenderList::default();
    list.add(entry(0xB, DerenderKind::Sound, false, ""));
    assert!(list.blacklists(0xB, DerenderKind::Sound));
    assert!(!list.blacklists_in_world(0xB));
    assert!(!list.dirty, "a temporary entry leaves the stored list clean");
}

#[test]
fn removing_a_fresh_entry_gives_the_list_back() {
    let mut list = DerenderList::default();
    list.add(entry(0x1, DerenderKind::Object, true, "Kept"));
    let before: Vec<u128> = list.entries().iter().map(|e| e.id).collect();
    list.add(entry(0x2, DerenderKind::Resident, true, "Gone"));
    list.remove(0x2);
    let after: Vec<u128> = list.entries().iter().map(|e| e.id).collect();
    assert_eq!(after, before);
    assert!(!list.blacklists(0x2, DerenderKind::Resident));
}

#[test]
fn re_derendering_as_permanent_upgrades_in_place() {
    let mut list = DerenderList::default();
    list.add(entry(0x3, DerenderKind::Object, false, ""));
    let revision = list.revision();
    list.add(entry(0x3, DerenderKind::Object, true, "Named later"));
    assert_eq!(list.entries().len(), 1);
    assert!(list.entries()[0].permanent);
    assert_eq!(list.entries()[0].name, "Named later");
    assert_eq!(list.revision(), revision.wrapping_add(1));
    assert_eq!(list.pending_ids.len(), 1, "an upgrade queues no second purge");

    // A permanent entry is never downgraded, and a re-add changes nothing else.
    list.add(entry(0x3, DerenderKind::Object, false, "Other"));
    assert!(list.entries()[0].permanent);
    assert_eq!(list.entries()[0].name, "Named later");
}

#[test]
fn removing_an_entry_releases_exactly_its_suppressions() {
    let mut list = DerenderList::default();
    list.add(entry(0x10, DerenderKind::Object, true, "A"));
    list.add(entry(0x20, DerenderKind::Object, true, "B"));
    list.note_hidden(&[scoped(1, 5), scoped(1, 6)], HiddenBy::Blacklist(0x10));
    list.note_hidden(&[scoped(1, 7)], HiddenBy::Blacklist(0x20));
    assert!(list.is_suppressed(scoped(1, 5)));
    assert_eq!(list.suppressing_root(scoped(1, 7)), Some(HiddenBy::Blacklist(0x20)));

    list.remove(0x10);
    assert!(!list.is_suppressed(scoped(1, 5)));
    assert!(!list.is_suppressed(scoped(1, 6)));
    assert!(list.is_suppressed(scoped(1, 7)), "another entry's suppression stays");
    let mut refetch = list.pending_refetch.clone();
    refetch.sort_by_key(|s| s.id);
    assert_eq!(refetch, vec![scoped(1, 5), scoped(1, 6)]);
}

#[test]
fn clearing_temporary_entries_keeps_the_permanent_ones() {
    let mut list = DerenderList::default();
    list.add(entry(0x1, DerenderKind::Object, true, "Kept"));
    list.add(entry(0x2, DerenderKind::Object, false, "Session"));
    list.note_hidden(&[scoped(2, 9)], HiddenBy::Blacklist(0x2));
    list.clear_temporary();
    let ids: Vec<u128> = list.entries().iter().map(|e| e.id).collect();
    assert_eq!(ids, vec![0x1]);
    assert!(!list.is_suppressed(scoped(2, 9)));
    assert_eq!(list.pending_refetch, vec![scoped(2, 9)]);
}

#[test]
fn the_friends_only_filter_spares_friends_and_self() {
    let mut list = DerenderList::default();
    list.friends_only = true;
    list.own_agent = Some(0xE);
    list.friends.insert(0xF);
    assert!(list.friends_only_hides(0xD));
    assert!(!list.friends_only_hides(0xE));
    assert!(!list.friends_only_hides(0xF));

    list.note_hidden(&[scoped(3, 1)], HiddenBy::FriendsOnly(0xD));
    list.friends.insert(0xD);
    list.resync_friends_only(&[0xC, 0xD]);
    assert!(!list.is_suppressed(scoped(3, 1)), "a new friend is freed");
    assert_eq!(list.pending_refetch, vec![scoped(3, 1)]);
    assert_eq!(list.pending_ids, vec![HiddenBy::FriendsOnly(0xC)]);
}

#[test]
fn kinds_rank_apart_and_carry_their_label() {
    let kinds = [
        DerenderKind::Object,
        DerenderKind::Resident,
        DerenderKind::Sound,
        DerenderKind::Animation,
        DerenderKind::Texture,
    ];
    let ranks: Vec<u8> = kinds.iter().map(|k| k.rank()).collect();
    assert_eq!(ranks, vec![0, 1, 2, 3, 4]);
    assert_eq!(DerenderKind::Resident.label_key(), "derender-type-resident");
    assert!(DerenderKind::Object.is_in_world());
    assert!(!DerenderKind::Texture.is_in_world());
}
