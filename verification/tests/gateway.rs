use notes_gateway::model::GatewayError;
use notes_gateway::store::Store;

const T1: &str = "2024-01-01T10:00:00+00:00";
const T2: &str = "2024-01-02T10:00:00+00:00";
const T3: &str = "2024-01-03T10:00:00+00:00";

fn s(v: &str) -> String {
    v.to_owned()
}

#[test]
fn empty_store_lists_nothing() {
    let store = Store::new();
    assert!(store.get_notes().is_empty());
    assert!(store.get_folders().is_empty());
    assert!(store.get_notes_by_folder(None).is_empty());
}

#[test]
fn add_then_get_notes_includes_exactly_one() {
    let mut store = Store::new();
    let n = store.add_note_at(s("Groceries"), s("milk, eggs"), None, s(T1));
    assert_eq!(n.id, 1);
    assert_eq!(n.created_at, n.updated_at);
    assert!(!n.is_starred);
    let listed = store.get_notes();
    let matching: Vec<_> = listed
        .iter()
        .filter(|m| m.title == "Groceries" && m.content == "milk, eggs")
        .collect();
    assert_eq!(matching.len(), 1);
    assert_eq!(matching[0].id, 1);
    assert_eq!(matching[0].created_at, matching[0].updated_at);
}

#[test]
fn add_note_with_clock_stamps_created_equal_updated() {
    let mut store = Store::new();
    let n = store.add_note(s("a"), s("b"), None);
    assert_eq!(n.id, 1);
    assert_eq!(n.created_at, n.updated_at);
    assert!(!n.is_starred);
    assert_eq!(n.folder_id, None);
}

#[test]
fn update_note_changes_text_and_time_only() {
    let mut store = Store::new();
    let n = store.add_note_at(s("old title"), s("old content"), Some(7), s(T1));
    store.toggle_note_starred(n.id).unwrap();
    let updated = store
        .update_note_at(n.id, s("new title"), s("new content"), s(T2))
        .unwrap();
    assert_eq!(updated.title, "new title");
    assert_eq!(updated.content, "new content");
    assert_eq!(updated.updated_at, T2);
    assert_eq!(updated.created_at, T1);
    assert_eq!(updated.folder_id, Some(7));
    assert!(updated.is_starred);
    assert!(updated.updated_at > n.updated_at);
}

#[test]
fn toggle_twice_restores_star_and_never_touches_updated_at() {
    let mut store = Store::new();
    let n = store.add_note_at(s("t"), s("c"), None, s(T1));
    let once = store.toggle_note_starred(n.id).unwrap();
    assert!(once.is_starred);
    assert_eq!(once.updated_at, T1);
    let twice = store.toggle_note_starred(n.id).unwrap();
    assert!(!twice.is_starred);
    assert_eq!(twice.updated_at, T1);
    assert_eq!(twice.title, n.title);
    assert_eq!(twice.content, n.content);
}

#[test]
fn move_note_sets_folder_and_refreshes_updated_at() {
    let mut store = Store::new();
    let f = store.create_folder_at(s("Work"), None, s(T1));
    let n = store.add_note_at(s("t"), s("c"), None, s(T1));
    let moved = store
        .move_note_to_folder_at(n.id, Some(f.id), s(T2))
        .unwrap();
    assert_eq!(moved.folder_id, Some(f.id));
    assert_eq!(moved.updated_at, T2);
    let detached = store.move_note_to_folder_at(n.id, None, s(T3)).unwrap();
    assert_eq!(detached.folder_id, None);
    assert_eq!(detached.updated_at, T3);
}

#[test]
fn get_notes_by_folder_filters_on_folder_and_none() {
    let mut store = Store::new();
    let f = store.create_folder_at(s("Work"), None, s(T1));
    store.add_note_at(s("filed"), s("x"), Some(f.id), s(T1));
    store.add_note_at(s("loose"), s("y"), None, s(T2));
    let filed = store.get_notes_by_folder(Some(f.id));
    assert_eq!(filed.len(), 1);
    assert_eq!(filed[0].title, "filed");
    let loose = store.get_notes_by_folder(None);
    assert_eq!(loose.len(), 1);
    assert_eq!(loose[0].title, "loose");
}

#[test]
fn delete_note_removes_it() {
    let mut store = Store::new();
    let n = store.add_note_at(s("t"), s("c"), None, s(T1));
    store.add_note_at(s("keep"), s("c"), None, s(T2));
    assert!(store.delete_note(n.id).is_ok());
    let listed = store.get_notes();
    assert_eq!(listed.len(), 1);
    assert_eq!(listed[0].title, "keep");
    assert!(matches!(store.delete_note(n.id), Err(GatewayError::NotFound)));
}

#[test]
fn delete_folder_detaches_its_notes() {
    let mut store = Store::new();
    let f = store.create_folder_at(s("Work"), None, s(T1));
    let a = store.add_note_at(s("a"), s("1"), Some(f.id), s(T1));
    let b = store.add_note_at(s("b"), s("2"), Some(f.id), s(T2));
    let c = store.add_note_at(s("c"), s("3"), None, s(T3));
    assert!(store.delete_folder(f.id).is_ok());
    assert!(store.get_folders().is_empty());
    let unfiled = store.get_notes_by_folder(None);
    assert_eq!(unfiled.len(), 3);
    for n in store.get_notes() {
        assert_eq!(n.folder_id, None);
    }
    let ids: Vec<i64> = unfiled.iter().map(|n| n.id).collect();
    assert!(ids.contains(&a.id));
    assert!(ids.contains(&b.id));
    assert!(ids.contains(&c.id));
    // Detaching is not a content edit: update times are kept.
    for n in unfiled {
        assert!(n.updated_at == T1 || n.updated_at == T2 || n.updated_at == T3);
    }
}

#[test]
fn update_folder_self_parent_always_fails() {
    let mut store = Store::new();
    let f = store.create_folder_at(s("Work"), None, s(T1));
    let r = store.update_folder_at(f.id, s("Renamed"), Some(f.id), s(T2));
    assert!(matches!(r, Err(GatewayError::InvalidOperation)));
    let folders = store.get_folders();
    assert_eq!(folders.len(), 1);
    assert_eq!(folders[0].name, "Work");
    assert_eq!(folders[0].parent_id, None);
    assert_eq!(folders[0].updated_at, T1);
    // Even an absent id is rejected for self-parenting, before the lookup.
    let r2 = store.update_folder_at(999, s("x"), Some(999), s(T2));
    assert!(matches!(r2, Err(GatewayError::InvalidOperation)));
}

#[test]
fn two_node_folder_cycle_is_not_rejected() {
    // Known gap: only direct self-parenting is rejected; a two-node cycle
    // created through the parent goes through.
    let mut store = Store::new();
    let work = store.create_folder_at(s("Work"), None, s(T1));
    assert_eq!(work.id, 1);
    let archive = store.create_folder_at(s("Archive"), Some(work.id), s(T1));
    assert_eq!(archive.id, 2);
    let self_parent = store.update_folder_at(2, s("Archive"), Some(2), s(T2));
    assert!(matches!(self_parent, Err(GatewayError::InvalidOperation)));
    let cycle = store.update_folder_at(1, s("Work"), Some(2), s(T2));
    assert!(cycle.is_ok());
    assert_eq!(cycle.unwrap().parent_id, Some(2));
}

#[test]
fn absent_ids_fail_with_not_found_and_change_nothing() {
    let mut store = Store::new();
    store.add_note_at(s("t"), s("c"), None, s(T1));
    store.create_folder_at(s("Work"), None, s(T1));
    let notes_before: Vec<(i64, String)> =
        store.get_notes().iter().map(|n| (n.id, n.title.clone())).collect();
    assert!(matches!(
        store.update_note_at(999, s("x"), s("y"), s(T2)),
        Err(GatewayError::NotFound)
    ));
    assert!(matches!(
        store.move_note_to_folder_at(999, None, s(T2)),
        Err(GatewayError::NotFound)
    ));
    assert!(matches!(store.toggle_note_starred(999), Err(GatewayError::NotFound)));
    assert!(matches!(store.delete_note(999), Err(GatewayError::NotFound)));
    assert!(matches!(
        store.update_folder_at(999, s("x"), None, s(T2)),
        Err(GatewayError::NotFound)
    ));
    assert!(matches!(store.delete_folder(999), Err(GatewayError::NotFound)));
    let notes_after: Vec<(i64, String)> =
        store.get_notes().iter().map(|n| (n.id, n.title.clone())).collect();
    assert_eq!(notes_before, notes_after);
    assert_eq!(store.get_folders().len(), 1);
}

#[test]
fn get_notes_orders_by_updated_at_descending() {
    let mut store = Store::new();
    let a = store.add_note_at(s("oldest"), s(""), None, s(T1));
    let b = store.add_note_at(s("middle"), s(""), None, s(T2));
    let c = store.add_note_at(s("newest"), s(""), None, s(T3));
    let listed = store.get_notes();
    assert_eq!(listed.len(), 3);
    assert_eq!(listed[0].id, c.id);
    assert_eq!(listed[1].id, b.id);
    assert_eq!(listed[2].id, a.id);
    // Deterministic: a second read gives the same order.
    let again = store.get_notes();
    let ids: Vec<i64> = again.iter().map(|n| n.id).collect();
    assert_eq!(ids, vec![c.id, b.id, a.id]);
}

#[test]
fn get_notes_keeps_table_order_on_equal_timestamps() {
    let mut store = Store::new();
    let first = store.add_note_at(s("first"), s(""), None, s(T1));
    let second = store.add_note_at(s("second"), s(""), None, s(T1));
    let listed = store.get_notes();
    assert_eq!(listed.len(), 2);
    assert_eq!(listed[0].id, first.id);
    assert_eq!(listed[1].id, second.id);
}

#[test]
fn get_folders_orders_by_name_ascending() {
    let mut store = Store::new();
    store.create_folder_at(s("Personal"), None, s(T1));
    store.create_folder_at(s("Archive"), None, s(T2));
    store.create_folder_at(s("Work"), None, s(T3));
    let names: Vec<String> = store.get_folders().iter().map(|f| f.name.clone()).collect();
    assert_eq!(names, vec![s("Archive"), s("Personal"), s("Work")]);
}

#[test]
fn get_folders_keeps_table_order_on_equal_names() {
    let mut store = Store::new();
    let a = store.create_folder_at(s("Same"), None, s(T1));
    let b = store.create_folder_at(s("Same"), Some(a.id), s(T2));
    let listed = store.get_folders();
    assert_eq!(listed.len(), 2);
    assert_eq!(listed[0].id, a.id);
    assert_eq!(listed[1].id, b.id);
}

#[test]
fn update_folder_renames_and_reparents() {
    let mut store = Store::new();
    let top = store.create_folder_at(s("Top"), None, s(T1));
    let child = store.create_folder_at(s("Child"), None, s(T1));
    let updated = store
        .update_folder_at(child.id, s("Nested"), Some(top.id), s(T2))
        .unwrap();
    assert_eq!(updated.name, "Nested");
    assert_eq!(updated.parent_id, Some(top.id));
    assert_eq!(updated.updated_at, T2);
    assert_eq!(updated.created_at, T1);
}

#[test]
fn ids_are_assigned_in_order_and_not_reused_within_a_run() {
    let mut store = Store::new();
    let a = store.add_note_at(s("a"), s(""), None, s(T1));
    let b = store.add_note_at(s("b"), s(""), None, s(T1));
    assert_eq!(a.id, 1);
    assert_eq!(b.id, 2);
    store.delete_note(b.id).unwrap();
    let c = store.add_note_at(s("c"), s(""), None, s(T1));
    assert_eq!(c.id, 3);
}
