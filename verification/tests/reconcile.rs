use tilesheets::manager::{Manager, ScanOutcome};
use tilesheets::parse::parse_renames;
use tilesheets::pos::TilePos;

fn n(s: &str) -> Vec<char> {
    s.chars().collect()
}

#[test]
fn added_and_missing_from_a_diff() {
    // Registry knows {A, B, C}; the local directory holds {A, C, D}.
    let mut m = Manager::new(Vec::new());
    assert!(m.import_tile(n("A"), TilePos { x: 0, y: 0, z: 0 }, 1));
    assert!(m.import_tile(n("B"), TilePos { x: 0, y: 1, z: 0 }, 2));
    assert!(m.import_tile(n("C"), TilePos { x: 1, y: 0, z: 0 }, 3));
    assert_eq!(m.observe_local(&n("A")), ScanOutcome::Known);
    assert_eq!(m.observe_local(&n("C")), ScanOutcome::Known);
    assert_eq!(m.observe_local(&n("D")), ScanOutcome::Added);
    assert_eq!(m.added, vec![n("D")]);
    assert_eq!(m.missing, vec![n("B")]);
}

#[test]
fn illegal_name_is_refused_before_any_change() {
    let mut m = Manager::new(Vec::new());
    assert!(m.import_tile(n("A"), TilePos { x: 0, y: 0, z: 0 }, 1));
    let added_before = m.added.clone();
    let missing_before = m.missing.clone();
    let table_len = m.table.len();
    assert_eq!(m.observe_local(&n("foo_bar")), ScanOutcome::Illegal);
    assert_eq!(m.added, added_before);
    assert_eq!(m.missing, missing_before);
    assert_eq!(m.table.len(), table_len);
}

#[test]
fn brackets_are_illegal_too() {
    let mut m = Manager::new(Vec::new());
    assert_eq!(m.observe_local(&n("a[0]")), ScanOutcome::Illegal);
    assert_eq!(m.observe_local(&n("plain name")), ScanOutcome::Added);
}

#[test]
fn rename_is_applied_before_all_rules() {
    let renames = vec![(n("foo_bar"), n("Foo Bar"))];
    let mut m = Manager::new(renames);
    assert_eq!(m.observe_local(&n("foo_bar")), ScanOutcome::Added);
    assert_eq!(m.added, vec![n("Foo Bar")]);
}

#[test]
fn empty_rename_skips_the_file() {
    let renames = vec![(n("junk"), n(""))];
    let mut m = Manager::new(renames);
    assert_eq!(m.observe_local(&n("junk")), ScanOutcome::Skipped);
    assert!(m.added.is_empty());
}

#[test]
fn renames_parse_and_later_lines_win() {
    let (pairs, invalid) = parse_renames(&n("a=b\nnot a rule\na=c\nx="));
    let mut m = Manager::new(pairs);
    assert_eq!(invalid, vec![n("not a rule")]);
    assert_eq!(m.observe_local(&n("a")), ScanOutcome::Added);
    assert_eq!(m.added, vec![n("c")]);
    assert_eq!(m.observe_local(&n("x")), ScanOutcome::Skipped);
}

#[test]
fn renames_split_at_last_equals_and_keep_crlf_lines() {
    let (pairs, invalid) = parse_renames(&n("p=q=r\r\nkeep=me\r\n"));
    assert!(invalid.is_empty());
    let mut m = Manager::new(pairs);
    assert_eq!(m.observe_local(&n("p=q")), ScanOutcome::Added);
    assert_eq!(m.added, vec![n("r")]);
    assert_eq!(m.observe_local(&n("keep")), ScanOutcome::Added);
    assert_eq!(m.added, vec![n("r"), n("me")]);
}
