use wts_translation_manager::buffer::HexBuffer;
use wts_translation_manager::buffer::W3Buffer;
use wts_translation_manager::translator::objects::ObjectsTranslator;
use wts_translation_manager::types::objects::ModMap;
use wts_translation_manager::types::objects::Modification;
use wts_translation_manager::types::objects::ModificationType;
use wts_translation_manager::types::objects::ModificationValue;
use wts_translation_manager::types::objects::ObjectModificationTable;
use wts_translation_manager::types::objects::ObjectType;

fn le(v: i32) -> Vec<u8> {
    v.to_le_bytes().to_vec()
}

fn push_all(buf: &mut Vec<u8>, parts: &[&[u8]]) {
    for p in parts {
        buf.extend_from_slice(p);
    }
}

/// A clean one-record Units file: version 2, one original record with one
/// integer modification, no custom records.
fn units_buffer() -> Vec<u8> {
    let mut b = Vec::new();
    push_all(
        &mut b,
        &[
            &le(2),
            &le(1),
            b"hpea",
            &le(0),
            &le(1),
            b"uhpm",
            &le(0),
            &le(1250),
            &le(0),
            &le(0),
        ],
    );
    b
}

/// A clean Abilities file with one original record holding an integer
/// modification with level and column, and one custom record holding a
/// string modification.
fn abilities_buffer() -> Vec<u8> {
    let mut b = Vec::new();
    push_all(
        &mut b,
        &[
            &le(2),
            // original table: one record
            &le(1),
            b"AHbz",
            &le(0),
            &le(1),
            b"ahdu",
            &le(1),      // kind Real
            &le(2),      // level
            &le(3),      // column
            &1.5f32.to_le_bytes(),
            &le(0),
            // custom table: one record
            &le(1),
            b"ABCD",    // original id
            b"WXYZ",    // custom id
            &le(1),
            b"anam",
            &le(3),     // kind String
            &le(4),     // level
            &le(0),     // column
            b"Blizzard\x00",
            &le(0),
        ],
    );
    b
}

#[test]
fn test_round_trip_units() {
    let bytes = units_buffer();
    let table = ObjectsTranslator::war_to_json(ObjectType::Units, bytes.clone())
        .expect("decode failed");
    let out = ObjectsTranslator::json_to_war(ObjectType::Units, table).expect("encode failed");
    assert_eq!(out, bytes);
}

#[test]
fn test_round_trip_abilities() {
    let bytes = abilities_buffer();
    let table = ObjectsTranslator::war_to_json(ObjectType::Abilities, bytes.clone())
        .expect("decode failed");
    let out = ObjectsTranslator::json_to_war(ObjectType::Abilities, table)
        .expect("encode failed");
    assert_eq!(out, bytes);
}

#[test]
fn test_value_fidelity_per_kind() {
    // an integer, both float kinds (by bit pattern), and a non-UTF-8 byte
    // string survive a table-to-bytes-to-table round trip exactly
    let mut table = ObjectModificationTable::new();
    let mods = vec![
        Modification {
            id: b"d001".to_vec(),
            kind: ModificationType::Int,
            value: ModificationValue::Int(-123456789),
            level: 1,
            column: 2,
            variation: 0,
        },
        Modification {
            id: b"d002".to_vec(),
            kind: ModificationType::Real,
            value: ModificationValue::Real(0.25f32.to_bits()),
            level: 0,
            column: 0,
            variation: 0,
        },
        Modification {
            id: b"d003".to_vec(),
            kind: ModificationType::Unreal,
            value: ModificationValue::Real(f32::NEG_INFINITY.to_bits()),
            level: 7,
            column: 1,
            variation: 0,
        },
        Modification {
            id: b"d004".to_vec(),
            kind: ModificationType::String,
            value: ModificationValue::String(vec![0xFF, 0xFE, b'x']),
            level: 0,
            column: 0,
            variation: 0,
        },
    ];
    table.original.insert(b"Dfoo".to_vec(), mods);
    let bytes =
        ObjectsTranslator::json_to_war(ObjectType::Doodads, table).expect("encode failed");
    let decoded = ObjectsTranslator::war_to_json(ObjectType::Doodads, bytes.clone())
        .expect("decode failed");
    let out = ObjectsTranslator::json_to_war(ObjectType::Doodads, decoded.clone())
        .expect("re-encode failed");
    assert_eq!(out, bytes);
    let mods = decoded.original.get(&b"Dfoo".to_vec()).expect("record missing");
    assert_eq!(mods.len(), 4);
    assert_eq!(mods[0].value, ModificationValue::Int(-123456789));
    assert_eq!(mods[0].level, 1);
    assert_eq!(mods[0].column, 2);
    assert_eq!(mods[1].value, ModificationValue::Real(0.25f32.to_bits()));
    assert_eq!(mods[2].value, ModificationValue::Real(f32::NEG_INFINITY.to_bits()));
    assert_eq!(mods[2].level, 7);
    assert_eq!(mods[3].value, ModificationValue::String(vec![0xFF, 0xFE, b'x']));
}

#[test]
fn test_variant_fields_only_for_extended_types() {
    // the same record bytes hold an extended entry for Abilities; for Units
    // no extra 8 bytes are consumed even though the value bytes are
    // printable ASCII that could be mistaken for extended fields
    let mut b = Vec::new();
    push_all(
        &mut b,
        &[
            &le(2),
            &le(1),
            b"hfoo",
            &le(0),
            &le(1),
            b"unam",
            &le(3),          // kind String
            b"ABCD0123\x00", // ASCII value that could look like two int fields
            &le(0),
            &le(0),
        ],
    );
    let table = ObjectsTranslator::war_to_json(ObjectType::Units, b.clone())
        .expect("decode failed");
    let mods = table.original.get(&b"hfoo".to_vec()).expect("record missing");
    assert_eq!(mods.len(), 1);
    assert_eq!(mods[0].level, 0);
    assert_eq!(mods[0].column, 0);
    assert_eq!(mods[0].variation, 0);
    assert_eq!(mods[0].value, ModificationValue::String(b"ABCD0123".to_vec()));
    let out = ObjectsTranslator::json_to_war(ObjectType::Units, table).expect("encode failed");
    assert_eq!(out, b);
}

#[test]
fn test_custom_key_composition() {
    // decoding originalId "ABCD" and customId "WXYZ" yields the 9-byte key
    // "WXYZ:ABCD"; encoding writes the pair back in original-then-custom order
    let bytes = abilities_buffer();
    let table = ObjectsTranslator::war_to_json(ObjectType::Abilities, bytes.clone())
        .expect("decode failed");
    let key = b"WXYZ:ABCD".to_vec();
    assert!(table.custom.get(&key).is_some());
    let out = ObjectsTranslator::json_to_war(ObjectType::Abilities, table)
        .expect("encode failed");
    // within the custom record the original id comes first on the wire
    let custom_record_start = out.len() - (8 + 4 + 4 + 4 + 8 + 9 + 4);
    assert_eq!(&out[custom_record_start..custom_record_start + 8], b"ABCDWXYZ");
}

#[test]
fn test_count_zero_decodes_to_empty_tables() {
    let mut b = Vec::new();
    push_all(&mut b, &[&le(2), &le(0), &le(0)]);
    let table = ObjectsTranslator::war_to_json(ObjectType::Items, b).expect("decode failed");
    assert_eq!(table.original.len(), 0);
    assert_eq!(table.custom.len(), 0);
    let out = ObjectsTranslator::json_to_war(ObjectType::Items, table).expect("encode failed");
    assert_eq!(out.len(), 12);
    assert_eq!(out, {
        let mut e = Vec::new();
        push_all(&mut e, &[&le(2), &le(0), &le(0)]);
        e
    });
}

#[test]
fn test_malformed_kind_rejected() {
    for bad_kind in [4, 5, 1000, -1] {
        let mut b = Vec::new();
        push_all(
            &mut b,
            &[
                &le(2),
                &le(1),
                b"hpea",
                &le(0),
                &le(1),
                b"uhpm",
                &le(bad_kind),
                &le(1250),
                &le(0),
                &le(0),
            ],
        );
        assert!(ObjectsTranslator::war_to_json(ObjectType::Units, b).is_err());
    }
}

#[test]
fn test_truncated_buffer_is_an_error() {
    let mut bytes = units_buffer();
    bytes.truncate(bytes.len() - 3);
    assert!(ObjectsTranslator::war_to_json(ObjectType::Units, bytes).is_err());
    assert!(ObjectsTranslator::war_to_json(ObjectType::Units, Vec::new()).is_err());
}

#[test]
fn test_short_custom_key_is_an_encode_error() {
    let mut table = ObjectModificationTable::new();
    table.custom.insert(b"short".to_vec(), Vec::new());
    assert!(ObjectsTranslator::json_to_war(ObjectType::Units, table).is_err());
}

#[test]
fn test_duplicate_record_keys_collapse() {
    // two records with the same id: the later record's entries win, in place
    let mut b = Vec::new();
    push_all(
        &mut b,
        &[
            &le(2),
            &le(2),
            b"hpea",
            &le(0),
            &le(1),
            b"uhpm",
            &le(0),
            &le(1250),
            &le(0),
            b"hpea",
            &le(0),
            &le(1),
            b"uhpx",
            &le(0),
            &le(99),
            &le(0),
            &le(0),
        ],
    );
    let table = ObjectsTranslator::war_to_json(ObjectType::Units, b).expect("decode failed");
    assert_eq!(table.original.len(), 1);
    let mods = table.original.get(&b"hpea".to_vec()).expect("record missing");
    assert_eq!(mods.len(), 1);
    assert_eq!(mods[0].id, b"uhpx".to_vec());
    assert_eq!(mods[0].value, ModificationValue::Int(99));
}

#[test]
fn test_hex_buffer_encodings() {
    let mut buf = HexBuffer::new();
    buf.add_int(-2);
    buf.add_short(-2);
    buf.add_float(1.0f32.to_bits());
    buf.add_byte(0xAB);
    buf.add_char('A');
    buf.add_new_line();
    buf.add_string(&b"hi".to_vec());
    buf.add_chars(&b"hi".to_vec());
    buf.add_zero_padding(2);
    buf.add_null_terminator();
    let out = buf.get_buffer();
    let mut expected = Vec::new();
    expected.extend_from_slice(&(-2i32).to_le_bytes());
    expected.extend_from_slice(&(-2i16).to_le_bytes());
    expected.extend_from_slice(&1.0f32.to_le_bytes());
    expected.push(0xAB);
    expected.push(b'A');
    expected.extend_from_slice(&[0x0D, 0x0A]);
    expected.extend_from_slice(b"hi\x00");
    expected.extend_from_slice(b"hi");
    expected.extend_from_slice(&[0, 0]);
    expected.push(0);
    assert_eq!(out, expected);
}

#[test]
fn test_trim_to_alignment_rounds_up() {
    let mut buf = HexBuffer::new();
    buf.add_byte(1);
    buf.trim_to_alignment();
    assert_eq!(buf.get_buffer(), vec![1, 0, 0, 0]);
    buf.trim_to_alignment();
    assert_eq!(buf.get_buffer(), vec![1, 0, 0, 0]);
}

#[test]
fn test_w3_buffer_reads() {
    let mut bytes = Vec::new();
    bytes.extend_from_slice(&(-7i32).to_le_bytes());
    bytes.extend_from_slice(&(300i16).to_le_bytes());
    bytes.extend_from_slice(&2.5f32.to_le_bytes());
    bytes.extend_from_slice(b"abc\x00");
    bytes.extend_from_slice(b"xyz");
    let mut reader = W3Buffer::new(bytes);
    assert_eq!(reader.read_int(), Some(-7));
    assert_eq!(reader.read_short(), Some(300));
    assert_eq!(reader.read_float(), Some(2.5f32.to_bits()));
    assert_eq!(reader.read_string(), b"abc".to_vec());
    assert!(!reader.is_exhausted());
    // a short read is truncated, not an error
    assert_eq!(reader.read_chars(10), b"xyz".to_vec());
    assert!(reader.is_exhausted());
    assert_eq!(reader.read_byte(), None);
    assert_eq!(reader.read_int(), None);
}

#[test]
fn test_read_string_without_terminator_runs_to_end() {
    let mut reader = W3Buffer::new(b"abc".to_vec());
    assert_eq!(reader.read_string(), b"abc".to_vec());
    assert!(reader.is_exhausted());
}

#[test]
fn test_object_type_from_extension() {
    assert_eq!(ObjectType::from_extension("w3u"), Some(ObjectType::Units));
    assert_eq!(ObjectType::from_extension("w3t"), Some(ObjectType::Items));
    assert_eq!(ObjectType::from_extension("w3b"), Some(ObjectType::Destructables));
    assert_eq!(ObjectType::from_extension("w3d"), Some(ObjectType::Doodads));
    assert_eq!(ObjectType::from_extension("W3A"), Some(ObjectType::Abilities));
    assert_eq!(ObjectType::from_extension("w3h"), Some(ObjectType::Buffs));
    assert_eq!(ObjectType::from_extension("w3q"), Some(ObjectType::Upgrades));
    assert_eq!(ObjectType::from_extension("txt"), None);
    assert_eq!(ObjectType::from_extension(""), None);
    assert_eq!(ObjectType::all_extensions().len(), 7);
}

#[test]
fn test_needs_variant_fields() {
    assert!(ObjectType::Doodads.needs_variant_fields());
    assert!(ObjectType::Abilities.needs_variant_fields());
    assert!(ObjectType::Upgrades.needs_variant_fields());
    assert!(!ObjectType::Units.needs_variant_fields());
    assert!(!ObjectType::Items.needs_variant_fields());
    assert!(!ObjectType::Destructables.needs_variant_fields());
    assert!(!ObjectType::Buffs.needs_variant_fields());
}

#[test]
fn test_level_zero_writes_variation() {
    // on the wire the extended slot holds level when nonzero, else variation
    let mut table = ObjectModificationTable::new();
    table.original.insert(
        b"Dbar".to_vec(),
        vec![Modification {
            id: b"d005".to_vec(),
            kind: ModificationType::Int,
            value: ModificationValue::Int(1),
            level: 0,
            column: 9,
            variation: 42,
        }],
    );
    let bytes =
        ObjectsTranslator::json_to_war(ObjectType::Doodads, table).expect("encode failed");
    // entry layout: id(4) kind(4) levelOrVariation(4) column(4) value(4) trailer(4)
    let entry = &bytes[8 + 12..];
    assert_eq!(&entry[4..8], &le(0)[..]);
    assert_eq!(&entry[8..12], &le(42)[..]);
    assert_eq!(&entry[12..16], &le(9)[..]);
}

#[test]
fn test_nonzero_trailer_decodes_but_reencodes_zeroed() {
    // the 4 trailer bytes after each value are read and discarded; a buffer
    // whose trailer is nonzero decodes to the same table as the clean one,
    // and re-encoding writes the trailer back as zeros
    let clean = units_buffer();
    let mut dirty = clean.clone();
    let n = dirty.len();
    // the entry's trailer sits just before the final custom-table count
    dirty[n - 8] = 7;
    let table = ObjectsTranslator::war_to_json(ObjectType::Units, dirty).expect("decode failed");
    let out = ObjectsTranslator::json_to_war(ObjectType::Units, table).expect("encode failed");
    assert_eq!(out, clean);
}

#[test]
fn test_negative_count_reads_no_records() {
    let mut b = Vec::new();
    push_all(&mut b, &[&le(2), &le(-5), &le(0)]);
    let table = ObjectsTranslator::war_to_json(ObjectType::Buffs, b).expect("decode failed");
    assert_eq!(table.original.len(), 0);
    assert_eq!(table.custom.len(), 0);
}

#[test]
fn test_trailing_garbage_is_ignored() {
    let mut bytes = units_buffer();
    bytes.extend_from_slice(b"leftover");
    let table = ObjectsTranslator::war_to_json(ObjectType::Units, bytes).expect("decode failed");
    assert_eq!(table.original.len(), 1);
}

#[test]
fn test_mod_map_insert_keeps_position() {
    let mut map = ModMap::new();
    map.insert(b"aaaa".to_vec(), Vec::new());
    map.insert(b"bbbb".to_vec(), Vec::new());
    map.insert(
        b"aaaa".to_vec(),
        vec![Modification {
            id: b"x001".to_vec(),
            kind: ModificationType::Int,
            value: ModificationValue::Int(5),
            level: 0,
            column: 0,
            variation: 0,
        }],
    );
    assert_eq!(map.len(), 2);
    assert_eq!(map.key_at(0), &b"aaaa".to_vec());
    assert_eq!(map.key_at(1), &b"bbbb".to_vec());
    assert_eq!(map.mods_at(0).len(), 1);
    assert!(map.contains_key(&b"bbbb".to_vec()));
    assert!(!map.contains_key(&b"cccc".to_vec()));
}
