use wts_translation_manager::data::tooltip::FieldTypeMap;
use wts_translation_manager::data::tooltip::SkillData;
use wts_translation_manager::data::tooltip::SkillManager;
use wts_translation_manager::data::tooltip::SkillMap;
use wts_translation_manager::types::results::TranslationError;
use wts_translation_manager::utils::common::FieldType;
use wts_translation_manager::utils::common::TextType;
use wts_translation_manager::utils::common::get_field_type;
use wts_translation_manager::utils::common::get_id;
use wts_translation_manager::utils::common::get_text_type;
use wts_translation_manager::utils::common::is_available_skill_data;
use wts_translation_manager::utils::export::output_files;
use wts_translation_manager::utils::parser::parse_content;

#[test]
fn test_get_id_recognizes_bracketed_ids() {
    assert_eq!(get_id("[ABCD]"), Some("ABCD".to_string()));
    assert_eq!(get_id("[A1B2]"), Some("A1B2".to_string()));
    assert_eq!(get_id("[a123]"), Some("a123".to_string()));
    assert_eq!(get_id("[1ABC]"), Some("1ABC".to_string()));
    assert_eq!(get_id("[ABC@]"), Some("ABC@".to_string()));
    assert_eq!(get_id("[ABC]"), None);
    assert_eq!(get_id("[ABCDE]"), None);
    assert_eq!(get_id("[A@BC]"), None);
    assert_eq!(get_id("A123"), None);
    assert_eq!(get_id("[A123"), None);
    assert_eq!(get_id("A123]"), None);
    assert_eq!(get_id(""), None);
}

#[test]
fn test_get_field_type_trims_names() {
    assert_eq!(get_field_type("Tip = \"x\""), Some(FieldType::Tip));
    assert_eq!(get_field_type("  Ubertip  = {"), Some(FieldType::Ubertip));
    assert_eq!(get_field_type("Researchtip=\"x\""), Some(FieldType::Researchtip));
    assert_eq!(get_field_type("Researchubertip = [=["), Some(FieldType::Researchubertip));
    assert_eq!(get_field_type("Unknown = \"x\""), None);
    assert_eq!(get_field_type("no equals sign"), None);
}

#[test]
fn test_get_text_type_peeks_after_array_opener() {
    assert_eq!(
        get_text_type("Tip = \"x\"", Some("next")),
        Some(TextType::SingleLine)
    );
    assert_eq!(
        get_text_type("Tip = {", Some("\"x\",")),
        Some(TextType::SingleLineArray)
    );
    assert_eq!(
        get_text_type("Tip = {", Some("1 = \"x\",")),
        Some(TextType::SingleLineArrayExt)
    );
    assert_eq!(get_text_type("Tip = {", Some("[=[")), Some(TextType::MultiLineArray));
    assert_eq!(
        get_text_type("Tip = {", Some("2 = [=[")),
        Some(TextType::MultiLineArrayExt)
    );
    assert_eq!(get_text_type("Tip = {", None), None);
    assert_eq!(get_text_type("Tip = {", Some("junk")), None);
}

#[test]
fn test_parse_content_builds_skills() {
    let content = "[A001]\nTip = \"first tip\"\n[A002]\nUbertip = {\n\"one\",\n\"two\",\n}\n";
    let skills = parse_content(content);
    assert_eq!(skills.len(), 2);
    let a1 = skills.get("A001").expect("A001 missing");
    assert_eq!(a1.id, "A001");
    assert_eq!(a1.tip, vec!["first tip".to_string()]);
    assert_eq!(a1.text_type_map.get(&FieldType::Tip), Some(TextType::SingleLine));
    let a2 = skills.get("A002").expect("A002 missing");
    assert_eq!(a2.ubertip, vec!["one".to_string(), "two".to_string()]);
    assert_eq!(
        a2.text_type_map.get(&FieldType::Ubertip),
        Some(TextType::SingleLineArray)
    );
    assert!(skills.get("A003").is_none());
}

#[test]
fn test_parse_content_multi_line_field() {
    let content = "[Az03]\nUbertip = [=[\nline one\nline two]=]\n";
    let skills = parse_content(content);
    assert_eq!(skills.len(), 1);
    let d = skills.get("Az03").expect("Az03 missing");
    assert_eq!(d.ubertip, vec!["line one\nline two".to_string()]);
    assert_eq!(d.text_type_map.get(&FieldType::Ubertip), Some(TextType::MultiLine));
}

#[test]
fn test_parse_content_skips_idless_data() {
    let skills = parse_content("Tip = \"orphan\"\n");
    assert_eq!(skills.len(), 0);
}

#[test]
fn test_output_files_replaces_translated_fields() {
    let source = "[A001]\nTip = \"source tip\"\n[A002]\nTip = \"other tip\"\n";
    let mut skills = SkillMap::new();
    let mut ttm = FieldTypeMap::new();
    ttm.insert(FieldType::Tip, TextType::SingleLine);
    skills.insert(
        "A001".to_string(),
        SkillData {
            id: "A001".to_string(),
            researchtip: Vec::new(),
            researchubertip: Vec::new(),
            tip: vec!["translated tip".to_string()],
            ubertip: Vec::new(),
            text_type_map: ttm,
        },
    );
    let out = output_files(&skills, source).expect("export failed");
    assert_eq!(
        out,
        "[A001]\nTip = \"translated tip\"\n[A002]\nTip = \"other tip\"\n"
    );
}

#[test]
fn test_output_files_untranslated_passthrough() {
    let source = "// a comment line\n[A009]\nTip = \"kept\"\n";
    let skills = SkillMap::new();
    let out = output_files(&skills, source).expect("export failed");
    assert_eq!(out, source);
}

#[test]
fn test_skill_map_sorted_iteration_and_overwrite() {
    let mut map = SkillMap::new();
    let blank = |id: &str| SkillData {
        id: id.to_string(),
        researchtip: Vec::new(),
        researchubertip: Vec::new(),
        tip: vec!["t".to_string()],
        ubertip: Vec::new(),
        text_type_map: FieldTypeMap::new(),
    };
    map.insert("B000".to_string(), blank("B000"));
    map.insert("A999".to_string(), blank("A999"));
    map.insert("A000".to_string(), blank("A000"));
    map.insert("A999".to_string(), blank("A999"));
    assert_eq!(map.len(), 3);
    assert_eq!(map.key_at(0).as_str(), "A000");
    assert_eq!(map.key_at(1).as_str(), "A999");
    assert_eq!(map.key_at(2).as_str(), "B000");
    assert!(map.contains_key("A999"));
    assert!(!map.contains_key("C000"));
}

#[test]
fn test_skill_manager_lookup_and_ids() {
    let mut manager = SkillManager::new();
    let data = SkillData {
        id: "Az02".to_string(),
        researchtip: Vec::new(),
        researchubertip: Vec::new(),
        tip: vec!["x".to_string()],
        ubertip: Vec::new(),
        text_type_map: FieldTypeMap::new(),
    };
    manager.skills.insert("Az02".to_string(), data);
    let ids = manager.get_skill_ids();
    assert_eq!(ids, vec!["Az02".to_string()]);
    let (source, translated) = manager.get_data_mut("Az02");
    assert!(source.is_some());
    assert!(translated.is_none());
}

#[test]
fn test_is_available_skill_data() {
    let mut d = SkillData {
        id: String::new(),
        researchtip: Vec::new(),
        researchubertip: Vec::new(),
        tip: Vec::new(),
        ubertip: Vec::new(),
        text_type_map: FieldTypeMap::new(),
    };
    assert!(!is_available_skill_data(&d));
    d.id = "A001".to_string();
    assert!(!is_available_skill_data(&d));
    d.ubertip = vec!["u".to_string()];
    assert!(is_available_skill_data(&d));
}

#[test]
fn test_translation_error_message() {
    let e = TranslationError::new("something broke");
    assert_eq!(e.message(), "something broke");
}

#[test]
fn test_output_translated_rejects_unparsable_key() {
    let mut skills = SkillMap::new();
    skills.insert(
        "@@".to_string(),
        SkillData {
            id: "@@".to_string(),
            researchtip: Vec::new(),
            researchubertip: Vec::new(),
            tip: vec!["x".to_string()],
            ubertip: Vec::new(),
            text_type_map: FieldTypeMap::new(),
        },
    );
    assert!(wts_translation_manager::utils::export::output_translated(&skills).is_err());
}

#[test]
fn test_output_files_unclassifiable_source_field_is_an_error() {
    // the source names a translated field but its body has no recognizable
    // layout, so the export cannot know how many lines to replace
    let source = "[A001]\nTip = {\njunk body\n}\n";
    let mut skills = SkillMap::new();
    let mut ttm = FieldTypeMap::new();
    ttm.insert(FieldType::Tip, TextType::SingleLine);
    skills.insert(
        "A001".to_string(),
        SkillData {
            id: "A001".to_string(),
            researchtip: Vec::new(),
            researchubertip: Vec::new(),
            tip: vec!["t".to_string()],
            ubertip: Vec::new(),
            text_type_map: ttm,
        },
    );
    assert!(output_files(&skills, source).is_err());
}

#[test]
fn test_parse_then_export_round_trip() {
    // a translation file in canonical form survives parse-then-render
    let text = "[Az02]\nTip = \"a tip\"\nUbertip = {\n\"u one\",\n\"u two\",\n}\n\n";
    let skills = parse_content(text);
    let out = wts_translation_manager::utils::export::output_translated(&skills)
        .expect("render failed");
    assert_eq!(out, text);
}
