use books_live::store::{Entity, EntityStore, MutationEvent};

fn created(id: &str, name: &str, points: u64) -> MutationEvent {
    MutationEvent::Created {
        id: String::from(id),
        name: String::from(name),
        author: String::from("author"),
        points,
    }
}

fn updated(id: &str, name: &str, points: u64) -> MutationEvent {
    MutationEvent::Updated {
        id: String::from(id),
        name: String::from(name),
        author: String::from("author"),
        points,
    }
}

fn deleted(id: &str) -> MutationEvent {
    MutationEvent::Deleted { id: String::from(id) }
}

fn ids(store: &EntityStore) -> Vec<String> {
    let mut v = Vec::new();
    let mut i = 0;
    while i < store.len() {
        v.push(store.get(i).id.clone());
        i += 1;
    }
    v
}

#[test]
fn created_inserts_in_order() {
    let mut s = EntityStore::new();
    s.apply(&created("1", "a", 1));
    s.apply(&created("2", "b", 2));
    s.apply(&created("3", "c", 3));
    assert_eq!(ids(&s), vec![String::from("1"), String::from("2"), String::from("3")]);
}

#[test]
fn created_same_id_replaces_without_duplicate() {
    let mut s = EntityStore::new();
    s.apply(&created("1", "old", 1));
    s.apply(&created("2", "b", 2));
    s.apply(&created("1", "new", 9));
    assert_eq!(s.len(), 2);
    assert_eq!(s.get(0).name, String::from("new"));
    assert_eq!(s.get(0).points, 9);
    assert_eq!(s.get(1).id, String::from("2"));
}

#[test]
fn updated_replaces_in_place() {
    let mut s = EntityStore::new();
    s.apply(&created("1", "a", 1));
    s.apply(&created("2", "b", 2));
    s.apply(&updated("1", "a2", 7));
    assert_eq!(s.len(), 2);
    assert_eq!(s.get(0).id, String::from("1"));
    assert_eq!(s.get(0).name, String::from("a2"));
    assert_eq!(s.get(0).points, 7);
}

#[test]
fn updated_absent_id_is_noop() {
    let mut s = EntityStore::new();
    s.apply(&created("1", "a", 1));
    s.apply(&updated("404", "ghost", 9));
    assert_eq!(s.len(), 1);
    assert_eq!(s.get(0).id, String::from("1"));
    assert_eq!(s.get(0).name, String::from("a"));
}

#[test]
fn deleted_removes_and_is_idempotent() {
    let mut s = EntityStore::new();
    s.apply(&created("1", "a", 1));
    s.apply(&created("2", "b", 2));
    s.apply(&deleted("1"));
    assert_eq!(ids(&s), vec![String::from("2")]);
    s.apply(&deleted("1"));
    assert_eq!(ids(&s), vec![String::from("2")]);
}

#[test]
fn deleted_absent_id_is_noop_on_empty() {
    let mut s = EntityStore::new();
    s.apply(&deleted("1"));
    assert_eq!(s.len(), 0);
}

#[test]
fn long_event_sequence_never_duplicates_ids() {
    let mut s = EntityStore::new();
    let evs = vec![
        created("1", "a", 1),
        created("2", "b", 2),
        created("1", "a2", 3),
        updated("2", "b2", 4),
        deleted("1"),
        created("1", "a3", 5),
        created("3", "c", 6),
        updated("404", "x", 7),
        deleted("2"),
        deleted("2"),
        created("2", "b3", 8),
    ];
    for ev in &evs {
        s.apply(ev);
        let seen = ids(&s);
        for i in 0..seen.len() {
            for j in (i + 1)..seen.len() {
                assert_ne!(seen[i], seen[j]);
            }
        }
    }
    assert_eq!(ids(&s), vec![String::from("1"), String::from("3"), String::from("2")]);
}

#[test]
fn sorted_by_points_desc_sorts() {
    let mut s = EntityStore::new();
    s.apply(&created("1", "low", 1));
    s.apply(&created("2", "high", 9));
    s.apply(&created("3", "mid", 5));
    let sorted: Vec<Entity> = s.sorted_by_points_desc();
    let pts: Vec<u64> = sorted.iter().map(|e| e.points).collect();
    assert_eq!(pts, vec![9, 5, 1]);
    // the store itself keeps insertion order
    assert_eq!(ids(&s), vec![String::from("1"), String::from("2"), String::from("3")]);
    // same entities, just reordered
    let mut sorted_ids: Vec<String> = sorted.iter().map(|e| e.id.clone()).collect();
    sorted_ids.sort();
    assert_eq!(sorted_ids, vec![String::from("1"), String::from("2"), String::from("3")]);
}

#[test]
fn load_bulk_upserts_without_duplicates() {
    let mut s = EntityStore::new();
    s.apply(&created("2", "live", 4));
    let fetched = vec![
        Entity { id: String::from("1"), name: String::from("a"), author: String::from("x"), points: 1 },
        Entity { id: String::from("2"), name: String::from("b"), author: String::from("y"), points: 2 },
        Entity { id: String::from("1"), name: String::from("c"), author: String::from("z"), points: 3 },
    ];
    s.load_bulk(&fetched);
    assert_eq!(s.len(), 2);
    assert_eq!(ids(&s), vec![String::from("2"), String::from("1")]);
    // the live entry was replaced by the fetched one, the batch deduplicated
    assert_eq!(s.get(0).name, String::from("b"));
    assert_eq!(s.get(1).name, String::from("c"));
    assert_eq!(s.get(1).points, 3);
}
