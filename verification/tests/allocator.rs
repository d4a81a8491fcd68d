use tilesheets::manager::{DeleteError, Manager, ScanOutcome};
use tilesheets::pos::TilePos;

fn n(s: &str) -> Vec<char> {
    s.chars().collect()
}

fn fresh() -> Manager {
    Manager::new(Vec::new())
}

#[test]
fn first_allocation_is_origin() {
    let mut m = fresh();
    let p = m.lookup(n("tile1"));
    assert_eq!(p, TilePos { x: 0, y: 0, z: 0 });
}

#[test]
fn spiral_order_of_first_allocations() {
    let mut m = fresh();
    let p1 = m.lookup(n("a"));
    let p2 = m.lookup(n("b"));
    let p3 = m.lookup(n("c"));
    let p4 = m.lookup(n("d"));
    assert_eq!(p1, TilePos { x: 0, y: 0, z: 0 });
    assert_eq!(p2, TilePos { x: 0, y: 1, z: 0 });
    assert_eq!(p3, TilePos { x: 1, y: 0, z: 0 });
    assert_eq!(p4, TilePos { x: 1, y: 1, z: 0 });
}

#[test]
fn allocations_never_repeat() {
    let mut m = fresh();
    let mut seen: Vec<TilePos> = Vec::new();
    for i in 0..40 {
        let p = m.lookup(n(&format!("tile{}", i)));
        assert!(!seen.contains(&p), "position returned twice: {:?}", p);
        seen.push(p);
    }
}

#[test]
fn known_name_returns_recorded_position() {
    let mut m = fresh();
    let p1 = m.lookup(n("stone"));
    let p2 = m.lookup(n("dirt"));
    assert_eq!(m.lookup(n("stone")), p1);
    assert_eq!(m.lookup(n("dirt")), p2);
    assert_eq!(m.table.len(), 2);
}

#[test]
fn stability_after_import() {
    let mut m = fresh();
    assert!(m.import_tile(n("stone"), TilePos { x: 5, y: 7, z: 0 }, 11));
    assert!(m.import_tile(n("dirt"), TilePos { x: 0, y: 0, z: 0 }, 12));
    assert_eq!(m.lookup(n("stone")), TilePos { x: 5, y: 7, z: 0 });
    assert_eq!(m.lookup(n("dirt")), TilePos { x: 0, y: 0, z: 0 });
    assert_eq!(m.table.len(), 2);
}

#[test]
fn allocation_skips_occupied_positions() {
    let mut m = fresh();
    assert!(m.import_tile(n("old"), TilePos { x: 0, y: 0, z: 0 }, 1));
    let p = m.lookup(n("new"));
    assert_eq!(p, TilePos { x: 0, y: 1, z: 0 });
}

#[test]
fn import_refuses_taken_name_or_position() {
    let mut m = fresh();
    assert!(m.import_tile(n("a"), TilePos { x: 0, y: 0, z: 0 }, 1));
    assert!(!m.import_tile(n("a"), TilePos { x: 1, y: 0, z: 0 }, 2));
    assert!(!m.import_tile(n("b"), TilePos { x: 0, y: 0, z: 0 }, 3));
    assert_eq!(m.table.len(), 1);
}

#[test]
fn layer_advances_when_grid_is_full() {
    let mut m = fresh();
    let mut last = TilePos { x: 0, y: 0, z: 0 };
    for i in 0..4097 {
        last = m.lookup(n(&format!("t{}", i)));
        assert!(last.x < 64 && last.y < 64);
    }
    assert_eq!(last, TilePos { x: 0, y: 0, z: 1 });
}

#[test]
fn deletion_frees_the_position() {
    let mut m = fresh();
    assert!(m.import_tile(n("gone"), TilePos { x: 0, y: 0, z: 0 }, 77));
    assert_eq!(m.record_deletion(&n("gone")), Ok(77));
    assert_eq!(m.deleted, vec![77]);
    assert_eq!(m.lookup(n("fresh")), TilePos { x: 0, y: 0, z: 0 });
}

#[test]
fn deleting_unknown_name_is_reported() {
    let mut m = fresh();
    assert_eq!(m.record_deletion(&n("absent")), Err(DeleteError::UnknownTile));
    assert!(m.deleted.is_empty());
}

#[test]
fn deleting_uncommitted_tile_is_refused() {
    let mut m = fresh();
    m.lookup(n("local-only"));
    assert_eq!(m.record_deletion(&n("local-only")), Err(DeleteError::Uncommitted));
    assert_eq!(m.table.len(), 1);
}

#[test]
fn allocation_depends_only_on_the_occupied_set() {
    // Two runs import the same occupancy in different orders; a new name
    // lands on the same position in both.
    let a = (n("a"), TilePos { x: 0, y: 0, z: 0 }, 1);
    let b = (n("b"), TilePos { x: 0, y: 1, z: 0 }, 2);
    let c = (n("c"), TilePos { x: 1, y: 1, z: 0 }, 3);
    let mut m1 = fresh();
    for (name, pos, id) in [a.clone(), b.clone(), c.clone()] {
        assert!(m1.import_tile(name, pos, id));
    }
    let mut m2 = fresh();
    for (name, pos, id) in [c, a, b] {
        assert!(m2.import_tile(name, pos, id));
    }
    let p1 = m1.lookup(n("new"));
    let p2 = m2.lookup(n("new"));
    assert_eq!(p1, p2);
    assert_eq!(p1, TilePos { x: 1, y: 0, z: 0 });
}

#[test]
fn scan_outcome_for_new_name_is_added() {
    let mut m = fresh();
    assert_eq!(m.observe_local(&n("pickaxe")), ScanOutcome::Added);
    assert_eq!(m.added, vec![n("pickaxe")]);
}
