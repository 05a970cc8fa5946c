use novelcore::modification::{ChangeSet, FileModification, ModificationType};
use novelcore::parser::{extract_file_edit_paths, parse_ai_response, parse_modifications};

#[test]
fn test_parse_modifications_replace() {
    let content = "<replace lines=\"10-15\">\nNew content for lines 10-15\n</replace>";

    let mods = parse_modifications(content).unwrap();
    assert_eq!(mods.len(), 1);
    assert_eq!(mods[0].line_start, 10);
    assert_eq!(mods[0].line_end, 15);
    assert!(matches!(mods[0].mod_type, ModificationType::Modify));
}

#[test]
fn test_parse_modifications_insert() {
    let content = "<insert at=\"5\">\nNew line to insert\n</insert>";

    let mods = parse_modifications(content).unwrap();
    assert_eq!(mods.len(), 1);
    assert_eq!(mods[0].line_start, 5);
    assert!(matches!(mods[0].mod_type, ModificationType::Add));
}

#[test]
fn test_parse_modifications_delete() {
    let content = "<delete lines=\"20-25\" />";

    let mods = parse_modifications(content).unwrap();
    assert_eq!(mods.len(), 1);
    assert_eq!(mods[0].line_start, 20);
    assert_eq!(mods[0].line_end, 25);
    assert!(matches!(mods[0].mod_type, ModificationType::Delete));
}

#[test]
fn test_parse_modifications_multiple() {
    let content = "\n<replace lines=\"10-15\">\nNew content\n</replace>\n<insert at=\"20\">\nInserted line\n</insert>\n<delete lines=\"30-35\" />\n";

    let mods = parse_modifications(content).unwrap();
    assert_eq!(mods.len(), 3);
}

#[test]
fn parse_modifications_trims_body_and_stamps_ids() {
    let content = "<replace lines=\"1-2\">\n  body text  \n</replace>";
    let mods = parse_modifications(content).unwrap();
    assert_eq!(mods.len(), 1);
    assert_eq!(mods[0].modified_text.as_deref(), Some("body text"));
    assert!(mods[0].original_text.is_none());
    assert!(mods[0].id.starts_with("mod-"));
}

#[test]
fn parse_modifications_rejects_overflowing_line_number() {
    let content = "<replace lines=\"99999999999-5\">x</replace>";
    let err = parse_modifications(content).unwrap_err();
    assert_eq!(err, "Invalid line start: number too large to fit in target type");
    let content2 = "<replace lines=\"5-99999999999\">x</replace>";
    let err2 = parse_modifications(content2).unwrap_err();
    assert_eq!(err2, "Invalid line end: number too large to fit in target type");
}

#[test]
fn parse_modifications_ignores_malformed_tags() {
    let content = "<replace lines=\"a-b\">x</replace> <insert at=\"\">y</insert>";
    let mods = parse_modifications(content).unwrap();
    assert_eq!(mods.len(), 0);
}

#[test]
fn extract_file_edit_paths_lists_blocks_in_order() {
    let response = "<file_edit path=\"a.txt\">\n<delete lines=\"1-2\" />\n</file_edit>\nmore\n<file_edit path=\"b.txt\">\n<insert at=\"3\">x</insert>\n</file_edit>";
    let paths = extract_file_edit_paths(response);
    assert_eq!(paths, vec!["a.txt".to_string(), "b.txt".to_string()]);
}

#[test]
fn parse_ai_response_without_blocks_is_none() {
    let originals: Vec<(String, String)> = Vec::new();
    let r = parse_ai_response("just prose", &originals).unwrap();
    assert!(r.is_none());
}

#[test]
fn parse_ai_response_builds_a_change_set() {
    let response = "<file_edit path=\"stories/chapter-001.txt\">\n<replace lines=\"10-15\">\nNew content here\n</replace>\n</file_edit>";
    let originals = vec![("stories/chapter-001.txt".to_string(), "old content".to_string())];
    let cs: ChangeSet = parse_ai_response(response, &originals).unwrap().unwrap();
    assert!(cs.id.starts_with("changeset-"));
    assert_eq!(cs.files.len(), 1);
    let f: &FileModification = &cs.files[0];
    assert_eq!(f.file_path, "stories/chapter-001.txt");
    assert_eq!(f.original_content, "old content");
    assert_eq!(f.modifications.len(), 1);
    assert_eq!(f.modifications[0].line_start, 10);
}

#[test]
fn parse_ai_response_reports_unreadable_file() {
    let response = "<file_edit path=\"missing.txt\">\n<delete lines=\"1-1\" />\n</file_edit>";
    let originals: Vec<(String, String)> = Vec::new();
    let err = parse_ai_response(response, &originals).unwrap_err();
    assert_eq!(err, "Failed to read file missing.txt");
}
