use crate::buffer::ints::spec_enc_i32;
use crate::buffer::ints::spec_i32_of_u32;
use crate::buffer::ints::spec_zeros;
use crate::buffer::w3_buffer::spec_read_string;
use crate::types::objects::EntrySeq;
use crate::types::objects::ModificationType;
use crate::types::objects::ModificationValueView;
use crate::types::objects::ModificationView;
use crate::types::objects::ObjectType;
use crate::types::objects::TableView;
use crate::types::objects::entries_contain_key;
use crate::types::objects::entries_insert;
use crate::buffer::ints::spec_from_le32;
use crate::buffer::ints::spec_le32;
use vstd::math::min;
use vstd::prelude::*;

verus! {

// ---------------------------------------------------------------------------
// Wire-level primitives
// ---------------------------------------------------------------------------
/// The wire tag of a modification type.
pub open spec fn spec_type_int(k: ModificationType) -> i32 {
    match k {
        ModificationType::Int => 0,
        ModificationType::Real => 1,
        ModificationType::Unreal => 2,
        ModificationType::String => 3,
    }
}

/// The modification type of a wire tag; tags outside 0..=3 are invalid.
pub open spec fn spec_int_to_type(v: i32) -> Option<ModificationType> {
    if v == 0 {
        Some(ModificationType::Int)
    } else if v == 1 {
        Some(ModificationType::Real)
    } else if v == 2 {
        Some(ModificationType::Unreal)
    } else if v == 3 {
        Some(ModificationType::String)
    } else {
        None
    }
}

/// Reads a little-endian signed 32-bit integer at `i`; fails when fewer than
/// 4 bytes remain.
pub open spec fn sd_int(b: Seq<u8>, i: int) -> Option<(i32, int)> {
    if 0 <= i && i + 4 <= b.len() {
        Some((spec_i32_of_u32(spec_from_le32(b.subrange(i, i + 4))), i + 4))
    } else {
        None
    }
}

/// Reads the little-endian bit pattern of a 32-bit float at `i`.
pub open spec fn sd_float(b: Seq<u8>, i: int) -> Option<(u32, int)> {
    if 0 <= i && i + 4 <= b.len() {
        Some((spec_from_le32(b.subrange(i, i + 4)), i + 4))
    } else {
        None
    }
}

/// Reads up to `n` raw bytes at `i`; a short read at the end of the buffer is
/// truncated, never an error.
pub open spec fn sd_chars(b: Seq<u8>, i: int, n: int) -> (Seq<u8>, int) {
    let j = min(i + n, b.len() as int);
    (b.subrange(i, j), j)
}

// ---------------------------------------------------------------------------
// Encoding: table model to bytes
// ---------------------------------------------------------------------------
/// The wire bytes of a modification's value. The value variant alone selects
/// the encoding; the kind tag is written separately.
pub open spec fn se_value(v: ModificationValueView) -> Seq<u8> {
    match v {
        ModificationValueView::Int(x) => spec_enc_i32(x),
        ModificationValueView::Real(bits) => spec_le32(bits),
        ModificationValueView::Unreal(bits) => spec_le32(bits),
        ModificationValueView::String(s) => s + seq![0u8],
    }
}

/// The wire bytes of one modification entry: id, kind tag, the two extended
/// fields for the extended object types (level merged with variation on
/// write), the value, and a 4-byte zero trailer.
pub open spec fn se_mod(m: ModificationView, ot: ObjectType) -> Seq<u8> {
    m.id + spec_enc_i32(spec_type_int(m.kind)) + (if ot.spec_needs_variant_fields() {
        spec_enc_i32(
            if m.level != 0 {
                m.level
            } else {
                m.variation
            },
        ) + spec_enc_i32(m.column)
    } else {
        Seq::<u8>::empty()
    }) + se_value(m.value) + spec_zeros(4)
}

/// The concatenated wire bytes of a modification list.
pub open spec fn se_mods(ms: Seq<ModificationView>, ot: ObjectType) -> Seq<u8>
    decreases ms.len(),
{
    if ms.len() == 0 {
        Seq::<u8>::empty()
    } else {
        se_mod(ms[0], ot) + se_mods(ms.drop_first(), ot)
    }
}

/// The wire bytes of one record. An original-table record writes its 4-byte
/// key and a 4-byte zero pad; a custom-table record splits its 9-byte
/// compound key at the fixed offsets, writing the original id (bytes 5..9)
/// first and the custom id (bytes 0..4) second.
pub open spec fn se_record(
    key: Seq<u8>,
    ms: Seq<ModificationView>,
    is_original: bool,
    ot: ObjectType,
) -> Seq<u8> {
    (if is_original {
        key + spec_zeros(4)
    } else {
        key.subrange(5, 9) + key.subrange(0, 4)
    }) + spec_enc_i32(ms.len() as i32) + se_mods(ms, ot)
}

/// The concatenated wire bytes of a table's records, in entry order.
pub open spec fn se_records(es: EntrySeq, is_original: bool, ot: ObjectType) -> Seq<u8>
    decreases es.len(),
{
    if es.len() == 0 {
        Seq::<u8>::empty()
    } else {
        se_record(es[0].0, es[0].1, is_original, ot) + se_records(es.drop_first(), is_original, ot)
    }
}

/// The full wire encoding of a table: version 2, then the original table
/// with its count, then the custom table with its count.
pub open spec fn se_table(t: TableView, ot: ObjectType) -> Seq<u8> {
    spec_enc_i32(2) + spec_enc_i32(t.original.len() as i32) + se_records(t.original, true, ot)
        + spec_enc_i32(t.custom.len() as i32) + se_records(t.custom, false, ot)
}

// ---------------------------------------------------------------------------
// Decoding: bytes to table model
// ---------------------------------------------------------------------------
/// Decodes a value per kind. The returned flag is true when re-encoding the
/// value reproduces the consumed bytes exactly (for strings: a terminator was
/// present). A `Real` and an `Unreal` kind both decode to the `Real` variant,
/// carrying the identical bit pattern.
pub open spec fn sd_value(b: Seq<u8>, i: int, kind: ModificationType) -> Option<
    (ModificationValueView, int, bool),
> {
    match kind {
        ModificationType::Int => match sd_int(b, i) {
            Some((v, j)) => Some((ModificationValueView::Int(v), j, true)),
            None => None,
        },
        ModificationType::Real | ModificationType::Unreal => match sd_float(b, i) {
            Some((bits, j)) => Some((ModificationValueView::Real(bits), j, true)),
            None => None,
        },
        ModificationType::String => {
            let (s, j, f) = spec_read_string(b, i);
            Some((ModificationValueView::String(s), j, f))
        },
    }
}

/// Decodes the 4 discarded trailer bytes after a value. The original table
/// reads them as one integer, the custom table as 4 raw bytes (which cannot
/// fail, even at the end of the buffer). The flag is true when exactly 4 zero
/// bytes were consumed, which is what re-encoding writes back.
pub open spec fn sd_trailer(b: Seq<u8>, i: int, is_original: bool) -> Option<(int, bool)> {
    if is_original {
        match sd_int(b, i) {
            Some((tv, j)) => Some((j, tv == 0)),
            None => None,
        }
    } else {
        let (s, j) = sd_chars(b, i, 4);
        Some((j, s == spec_zeros(4)))
    }
}

/// Decodes one modification entry at `i`. Fails on buffer exhaustion at any
/// integer field and on a kind tag outside 0..=3. The decoded entry always
/// has `variation == 0`; for non-extended object types `level` and `column`
/// are 0 and no extra bytes are consumed.
pub open spec fn sd_mod(b: Seq<u8>, i: int, is_original: bool, ot: ObjectType) -> Option<
    (ModificationView, int, bool),
> {
    let (id, i1) = sd_chars(b, i, 4);
    match sd_int(b, i1) {
        None => None,
        Some((tag, i2)) => match spec_int_to_type(tag) {
            None => None,
            Some(kind) => {
                let (level, column, i3opt) = if ot.spec_needs_variant_fields() {
                    match sd_int(b, i2) {
                        None => (0i32, 0i32, None),
                        Some((lv, ia)) => match sd_int(b, ia) {
                            None => (0i32, 0i32, None),
                            Some((col, ib)) => (lv, col, Some(ib)),
                        },
                    }
                } else {
                    (0i32, 0i32, Some(i2))
                };
                match i3opt {
                    None => None,
                    Some(i3) => match sd_value(b, i3, kind) {
                        None => None,
                        Some((value, i4, c1)) => match sd_trailer(b, i4, is_original) {
                            None => None,
                            Some((i5, c2)) => Some(
                                (
                                    ModificationView {
                                        id,
                                        kind,
                                        value,
                                        level,
                                        column,
                                        variation: 0,
                                    },
                                    i5,
                                    c1 && c2,
                                ),
                            ),
                        },
                    },
                }
            },
        },
    }
}

/// Decodes `n` modification entries, accumulating onto `acc`.
pub open spec fn sd_mods(
    b: Seq<u8>,
    i: int,
    n: int,
    acc: Seq<ModificationView>,
    clean: bool,
    is_original: bool,
    ot: ObjectType,
) -> Option<(Seq<ModificationView>, int, bool)>
    decreases n,
{
    if n <= 0 {
        Some((acc, i, clean))
    } else {
        match sd_mod(b, i, is_original, ot) {
            None => None,
            Some((m, j, c)) => sd_mods(b, j, n - 1, acc.push(m), clean && c, is_original, ot),
        }
    }
}

/// Decodes one record: two 4-byte ids, a count, and that many entries. For
/// the original table the first id is the key and the second is a discarded
/// pad slot (clean when zero); for the custom table the key is assembled as
/// `customId ':' originalId`, 9 bytes.
pub open spec fn sd_record(b: Seq<u8>, i: int, is_original: bool, ot: ObjectType) -> Option<
    ((Seq<u8>, Seq<ModificationView>), int, bool),
> {
    let (oid, i1) = sd_chars(b, i, 4);
    let (cid, i2) = sd_chars(b, i1, 4);
    match sd_int(b, i2) {
        None => None,
        Some((cnt, i3)) => match sd_mods(b, i3, cnt as int, Seq::empty(), true, is_original, ot) {
            None => None,
            Some((ms, j, c)) => {
                let key = if is_original {
                    oid
                } else {
                    cid + seq![0x3Au8] + oid
                };
                Some(((key, ms), j, c && cnt >= 0 && (!is_original || cid == spec_zeros(4))))
            },
        },
    }
}

/// Decodes `n` records, inserting each into the accumulated table with
/// ordered-map semantics; a duplicate key overwrites in place and makes the
/// buffer unclean (re-encoding would drop the earlier record).
pub open spec fn sd_records(
    b: Seq<u8>,
    i: int,
    n: int,
    acc: EntrySeq,
    clean: bool,
    is_original: bool,
    ot: ObjectType,
) -> Option<(EntrySeq, int, bool)>
    decreases n,
{
    if n <= 0 {
        Some((acc, i, clean))
    } else {
        match sd_record(b, i, is_original, ot) {
            None => None,
            Some(((k, ms), j, c)) => sd_records(
                b,
                j,
                n - 1,
                entries_insert(acc, k, ms),
                clean && c && !entries_contain_key(acc, k),
                is_original,
                ot,
            ),
        }
    }
}

/// Decodes one table section: a count followed by that many records,
/// accumulating onto `acc`. A negative count reads no records and is unclean.
pub open spec fn sd_section(
    b: Seq<u8>,
    i: int,
    acc: EntrySeq,
    is_original: bool,
    ot: ObjectType,
) -> Option<(EntrySeq, int, bool)> {
    match sd_int(b, i) {
        None => None,
        Some((cnt, i1)) => match sd_records(b, i1, cnt as int, acc, true, is_original, ot) {
            None => None,
            Some((es, j, c)) => Some((es, j, c && cnt >= 0)),
        },
    }
}

/// Decodes a whole file: version, original table, custom table. The returned
/// flag is true exactly when re-encoding the table reproduces the buffer
/// byte for byte: the version is 2, every discarded slot held zeros, every
/// string had its terminator, record keys were unique, counts were
/// non-negative, and no bytes trail the custom table.
pub open spec fn sd_table(b: Seq<u8>, ot: ObjectType) -> Option<(TableView, bool)> {
    match sd_int(b, 0) {
        None => None,
        Some((ver, i1)) => match sd_section(b, i1, Seq::empty(), true, ot) {
            None => None,
            Some((orig, i2, c1)) => match sd_section(b, i2, Seq::empty(), false, ot) {
                None => None,
                Some((cust, i3, c2)) => Some(
                    (
                        TableView { original: orig, custom: cust },
                        c1 && c2 && ver == 2 && i3 == b.len(),
                    ),
                ),
            },
        },
    }
}

// ---------------------------------------------------------------------------
// Well-formedness: the tables whose encoding decodes back to themselves
// ---------------------------------------------------------------------------
/// The value variant a kind tag pairs with in a canonical (decoded) table:
/// `Int` with `Int`, `String` with a terminator-free `String`, and both float
/// kinds with the `Real` variant, which is what decoding produces.
pub open spec fn value_matches_kind(kind: ModificationType, v: ModificationValueView) -> bool {
    match kind {
        ModificationType::Int => v is Int,
        ModificationType::Real => v is Real,
        ModificationType::Unreal => v is Real,
        ModificationType::String => v is String && forall|k: int|
            0 <= k < v->String_0.len() ==> v->String_0[k] != 0u8,
    }
}

/// A canonical modification entry: 4-byte id, value matching its kind,
/// variation 0 (decode always folds variation into level), and zero
/// level/column for object types without the extended layout.
pub open spec fn mod_wf(m: ModificationView, ot: ObjectType) -> bool {
    &&& m.id.len() == 4
    &&& value_matches_kind(m.kind, m.value)
    &&& m.variation == 0
    &&& !ot.spec_needs_variant_fields() ==> m.level == 0 && m.column == 0
}

/// A well-formed record key: 4 bytes in the original table; in the custom
/// table exactly 9 bytes with the separator byte `:` at offset 4.
pub open spec fn key_wf(key: Seq<u8>, is_original: bool) -> bool {
    if is_original {
        key.len() == 4
    } else {
        key.len() == 9 && key[4] == 0x3Au8
    }
}

/// A well-formed table section: unique well-formed keys, counts that fit a
/// signed 32-bit integer, and canonical modification entries.
pub open spec fn section_wf(es: EntrySeq, is_original: bool, ot: ObjectType) -> bool {
    &&& crate::types::objects::entries_wf(es)
    &&& es.len() <= i32::MAX
    &&& forall|i: int| 0 <= i < es.len() ==> #[trigger] key_wf(es[i].0, is_original)
    &&& forall|i: int| 0 <= i < es.len() ==> (#[trigger] es[i].1).len() <= i32::MAX
    &&& forall|i: int, k: int|
        0 <= i < es.len() && 0 <= k < (#[trigger] es[i].1).len() ==> mod_wf(#[trigger] es[i].1[k], ot)
}

/// A well-formed table: both sections well-formed. These are exactly the
/// tables whose encoding decodes back to themselves, cleanly.
pub open spec fn table_wf(t: TableView, ot: ObjectType) -> bool {
    section_wf(t.original, true, ot) && section_wf(t.custom, false, ot)
}

/// Every modification list of a section is short enough for its count to be
/// written as a signed 32-bit integer.
pub open spec fn mods_fit(es: EntrySeq) -> bool {
    forall|i: int| 0 <= i < es.len() ==> (#[trigger] es[i].1).len() <= i32::MAX
}

/// All counts of a table fit the wire's signed 32-bit count fields, the one
/// machine limit encoding puts on a table.
pub open spec fn counts_fit(t: TableView) -> bool {
    &&& t.original.len() <= i32::MAX
    &&& t.custom.len() <= i32::MAX
    &&& mods_fit(t.original)
    &&& mods_fit(t.custom)
}

/// Appending one modification appends its encoding.
pub proof fn lemma_se_mods_snoc(ms: Seq<ModificationView>, m: ModificationView, ot: ObjectType)
    ensures
        se_mods(ms.push(m), ot) == se_mods(ms, ot) + se_mod(m, ot),
    decreases ms.len(),
{
    if ms.len() == 0 {
        reveal_with_fuel(se_mods, 2);
        assert(ms.push(m).drop_first() =~= Seq::<ModificationView>::empty());
        assert(se_mods(ms.push(m), ot) =~= se_mods(ms, ot) + se_mod(m, ot));
    } else {
        assert(ms.push(m).drop_first() =~= ms.drop_first().push(m));
        lemma_se_mods_snoc(ms.drop_first(), m, ot);
        assert(ms.push(m)[0] == ms[0]);
        assert(se_mods(ms.push(m), ot) == se_mod(ms[0], ot) + (se_mods(ms.drop_first(), ot)
            + se_mod(m, ot)));
        assert(se_mods(ms, ot) == se_mod(ms[0], ot) + se_mods(ms.drop_first(), ot));
        assert(se_mod(ms[0], ot) + (se_mods(ms.drop_first(), ot) + se_mod(m, ot)) =~= (se_mod(
            ms[0],
            ot,
        ) + se_mods(ms.drop_first(), ot)) + se_mod(m, ot));
    }
}

/// Appending one record appends its encoding.
pub proof fn lemma_se_records_snoc(
    es: EntrySeq,
    e: (Seq<u8>, Seq<ModificationView>),
    is_original: bool,
    ot: ObjectType,
)
    ensures
        se_records(es.push(e), is_original, ot) == se_records(es, is_original, ot) + se_record(
            e.0,
            e.1,
            is_original,
            ot,
        ),
    decreases es.len(),
{
    if es.len() == 0 {
        reveal_with_fuel(se_records, 2);
        assert(es.push(e).drop_first() =~= Seq::<(Seq<u8>, Seq<ModificationView>)>::empty());
        assert(se_records(es.push(e), is_original, ot) =~= se_records(es, is_original, ot)
            + se_record(e.0, e.1, is_original, ot));
    } else {
        assert(es.push(e).drop_first() =~= es.drop_first().push(e));
        lemma_se_records_snoc(es.drop_first(), e, is_original, ot);
        assert(es.push(e)[0] == es[0]);
        assert(se_records(es.push(e), is_original, ot) == se_record(es[0].0, es[0].1, is_original, ot)
            + (se_records(es.drop_first(), is_original, ot) + se_record(e.0, e.1, is_original, ot)));
        assert(se_records(es, is_original, ot) == se_record(es[0].0, es[0].1, is_original, ot)
            + se_records(es.drop_first(), is_original, ot));
        assert(se_record(es[0].0, es[0].1, is_original, ot) + (se_records(es.drop_first(), is_original, ot)
            + se_record(e.0, e.1, is_original, ot)) =~= (se_record(es[0].0, es[0].1, is_original, ot)
            + se_records(es.drop_first(), is_original, ot)) + se_record(e.0, e.1, is_original, ot));
    }
}

} // verus!
