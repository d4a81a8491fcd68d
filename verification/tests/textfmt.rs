use tilesheets::fmt::{registry_calls, sheet_image_name, tile_line, CHUNK};
use tilesheets::manager::Manager;
use tilesheets::parse::parse_sizes;
use tilesheets::pos::TilePos;
use tilesheets::text::{confirmation_accepted, name_is_legal};
use tilesheets::upload::{upload_decide, UploadAction, UploadOutcome, UploadPhase};

fn n(s: &str) -> Vec<char> {
    s.chars().collect()
}

fn s(v: &Vec<char>) -> String {
    v.iter().collect()
}

#[test]
fn confirmation_needs_the_word_continue() {
    assert!(confirmation_accepted(&n("continue\n")));
    assert!(confirmation_accepted(&n("  Continue \r\n")));
    assert!(confirmation_accepted(&n("CONTINUE")));
    assert!(!confirmation_accepted(&n("yes")));
    assert!(!confirmation_accepted(&n("continue now")));
    assert!(!confirmation_accepted(&n("")));
}

#[test]
fn legal_names_avoid_reserved_characters() {
    assert!(name_is_legal(&n("Iron Ingot")));
    assert!(!name_is_legal(&n("iron_ingot")));
    assert!(!name_is_legal(&n("iron[1]")));
}

#[test]
fn tile_lines_carry_position_and_name() {
    let line = tile_line(TilePos { x: 3, y: 40, z: 0 }, &n("Coal Ore"));
    assert_eq!(s(&line), "3 40 0 Coal Ore");
    let line = tile_line(TilePos { x: 0, y: 0, z: 2 }, &n("X"));
    assert_eq!(s(&line), "0 0 2 X");
}

#[test]
fn sheet_image_names_carry_family_size_and_layer() {
    assert_eq!(s(&sheet_image_name(&n("Botania"), 32, 0)), "Tilesheet Botania 32 0.png");
    assert_eq!(s(&sheet_image_name(&n("My Mod"), 16, 3)), "Tilesheet My Mod 16 3.png");
}

#[test]
fn hundred_twenty_additions_take_three_calls() {
    // 120 lines go out in exactly three calls of 50, 50 and 20 lines.
    let mut m = Manager::new(Vec::new());
    for i in 0..120 {
        m.lookup(n(&format!("tile{}", i)));
        m.added.push(n(&format!("tile{}", i)));
    }
    let lines = m.addition_lines();
    assert_eq!(lines.len(), 120);
    let calls = registry_calls(&lines);
    assert_eq!(calls.len(), 3);
    let sizes: Vec<usize> = calls.iter().map(|c| s(c).split('|').count()).collect();
    assert_eq!(sizes, vec![50, 50, 20]);
    assert!(s(&calls[0]).starts_with("0 0 0 tile0|"));
}

#[test]
fn deletions_are_chunked_the_same_way() {
    let mut m = Manager::new(Vec::new());
    for i in 0..51u64 {
        m.deleted.push(1000 + i);
    }
    let lines = m.deletion_lines();
    assert_eq!(s(&lines[0]), "1000");
    let calls = registry_calls(&lines);
    assert_eq!(calls.len(), 2);
    assert_eq!(s(&calls[1]), "1050");
    assert_eq!(s(&calls[0]).split('|').count(), CHUNK);
}

#[test]
fn no_lines_means_no_calls() {
    let calls = registry_calls(&Vec::new());
    assert!(calls.is_empty());
}

#[test]
fn sizes_parse_with_spaces_and_fail_loudly() {
    let v = parse_sizes(&n("16, 32 ,64")).unwrap();
    assert_eq!(v, vec![16, 32, 64]);
    assert_eq!(parse_sizes(&n("16,x")), None);
    assert_eq!(parse_sizes(&n("")), None);
    assert_eq!(parse_sizes(&n("4294967296")), None);
    assert_eq!(parse_sizes(&n("4294967295")), Some(vec![u32::MAX]));
}

#[test]
fn upload_flow_decisions() {
    let w_exists = UploadOutcome::Warning { exists_is_sole_warning: true };
    let w_other = UploadOutcome::Warning { exists_is_sole_warning: false };
    assert_eq!(
        upload_decide(UploadPhase::Initial, &UploadOutcome::Success, None),
        UploadAction::Done
    );
    assert_eq!(upload_decide(UploadPhase::Initial, &w_exists, None), UploadAction::RetryWithKey);
    assert_eq!(upload_decide(UploadPhase::Initial, &w_other, None), UploadAction::ConsultHuman);
    assert_eq!(
        upload_decide(UploadPhase::Initial, &w_other, Some(true)),
        UploadAction::RetryWithKey
    );
    assert_eq!(
        upload_decide(UploadPhase::Initial, &w_other, Some(false)),
        UploadAction::ManualUpload
    );
    // The one retry is the cap: warnings after it go to manual upload.
    assert_eq!(upload_decide(UploadPhase::Retried, &w_exists, None), UploadAction::ManualUpload);
    assert_eq!(
        upload_decide(UploadPhase::Initial, &UploadOutcome::ApiErrors, None),
        UploadAction::ManualUpload
    );
    assert_eq!(
        upload_decide(UploadPhase::Initial, &UploadOutcome::TransportError, None),
        UploadAction::ManualUpload
    );
    assert_eq!(
        upload_decide(UploadPhase::Initial, &UploadOutcome::UnknownResult, None),
        UploadAction::Fatal
    );
}
