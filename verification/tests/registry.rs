use tcp_chat::constants::{
    GRACE_DELAY_MS, HELLO_TIMEOUT_MS, HOST_ID, PORT, SERVER_POLL_DELAY_MS,
};
use tcp_chat::registry::Registry;

fn registry_of(names: &[&str]) -> Registry {
    let mut registry = Registry::new();
    for name in names {
        registry.register(name.to_string());
    }
    registry
}

fn names_agree_with_ids(registry: &Registry) -> bool {
    let ids = registry.ids();
    let unique = ids.iter().all(|id| ids.iter().filter(|other| *other == id).count() == 1);
    let named = ids.iter().all(|id| registry.name_of(*id).is_some());
    let roster_ids: Vec<u64> = registry.roster().iter().map(|entry| entry.1).collect();
    unique && named && &roster_ids == ids && ids.iter().all(|id| *id < registry.next_id())
}

#[test]
fn constants_of_the_room() {
    assert_eq!(PORT, 42069);
    assert_eq!(SERVER_POLL_DELAY_MS, 200);
    assert_eq!(HOST_ID, 0);
    assert_eq!(HELLO_TIMEOUT_MS, 5_000);
    assert_eq!(GRACE_DELAY_MS, 1_000);
}

#[test]
fn new_registry_is_empty() {
    let registry = Registry::new();
    assert!(registry.ids().is_empty());
    assert_eq!(registry.next_id(), 0);
    assert!(!registry.contains(0));
    assert_eq!(registry.name_of(0), None);
    assert!(registry.roster().is_empty());
}

#[test]
fn ids_are_handed_out_from_zero_in_order() {
    let mut registry = Registry::new();
    assert_eq!(registry.register("alice".to_string()), Some(0));
    assert_eq!(registry.register("bob".to_string()), Some(1));
    assert_eq!(registry.register("carol".to_string()), Some(2));
    assert_eq!(registry.ids(), &vec![0, 1, 2]);
    assert_eq!(registry.next_id(), 3);
}

#[test]
fn registered_client_has_its_name() {
    let registry = registry_of(&["alice", "bob"]);
    assert!(registry.contains(1));
    assert_eq!(registry.name_of(0), Some(&"alice".to_string()));
    assert_eq!(registry.name_of(1), Some(&"bob".to_string()));
    assert_eq!(registry.name_of(2), None);
}

#[test]
fn two_clients_may_share_a_name() {
    let registry = registry_of(&["sam", "sam"]);
    assert_eq!(registry.roster(), vec![("sam".to_string(), 0), ("sam".to_string(), 1)]);
}

#[test]
fn remove_gives_the_name_and_keeps_the_order_of_the_others() {
    let mut registry = registry_of(&["alice", "bob", "carol"]);
    assert_eq!(registry.remove(1), Some("bob".to_string()));
    assert_eq!(registry.ids(), &vec![0, 2]);
    assert!(!registry.contains(1));
    assert_eq!(registry.name_of(1), None);
    assert_eq!(registry.roster(), vec![("alice".to_string(), 0), ("carol".to_string(), 2)]);
}

#[test]
fn remove_of_an_unknown_id_changes_nothing() {
    let mut registry = registry_of(&["alice"]);
    assert_eq!(registry.remove(5), None);
    assert_eq!(registry.ids(), &vec![0]);
    assert_eq!(registry.next_id(), 1);
}

#[test]
fn an_id_is_not_used_again_after_its_client_left() {
    let mut registry = registry_of(&["alice", "bob"]);
    registry.remove(1);
    registry.remove(0);
    assert_eq!(registry.register("carol".to_string()), Some(2));
    assert_eq!(registry.ids(), &vec![2]);
}

#[test]
fn rename_replaces_the_name_of_a_client_in_the_room() {
    let mut registry = registry_of(&["alice", "bob"]);
    assert!(registry.rename(1, "robert".to_string()));
    assert_eq!(registry.name_of(1), Some(&"robert".to_string()));
    assert_eq!(registry.name_of(0), Some(&"alice".to_string()));
    assert_eq!(registry.ids(), &vec![0, 1]);
}

#[test]
fn rename_of_an_unknown_id_adds_no_name() {
    let mut registry = registry_of(&["alice"]);
    assert!(!registry.rename(3, "ghost".to_string()));
    assert_eq!(registry.name_of(3), None);
    assert!(!registry.contains(3));
    assert!(names_agree_with_ids(&registry));
}

#[test]
fn roster_lists_name_then_id_in_joining_order() {
    let registry = registry_of(&["alice", "bob"]);
    assert_eq!(registry.roster(), vec![("alice".to_string(), 0), ("bob".to_string(), 1)]);
}

#[test]
fn ids_and_names_agree_after_every_change() {
    let mut registry = Registry::new();
    assert!(names_agree_with_ids(&registry));
    registry.register("a".to_string());
    assert!(names_agree_with_ids(&registry));
    registry.register("b".to_string());
    assert!(names_agree_with_ids(&registry));
    registry.rename(0, "c".to_string());
    assert!(names_agree_with_ids(&registry));
    registry.rename(9, "d".to_string());
    assert!(names_agree_with_ids(&registry));
    registry.remove(0);
    assert!(names_agree_with_ids(&registry));
    registry.remove(0);
    assert!(names_agree_with_ids(&registry));
    registry.register("e".to_string());
    assert!(names_agree_with_ids(&registry));
    registry.remove(2);
    registry.remove(1);
    assert!(names_agree_with_ids(&registry));
    assert!(registry.ids().is_empty());
    assert_eq!(registry.next_id(), 3);
}
