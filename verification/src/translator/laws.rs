use crate::buffer::ints::spec_enc_i32;
use crate::buffer::ints::spec_i32_of_u32;
use crate::buffer::ints::spec_u32_of_i32;
use crate::buffer::ints::spec_zeros;
use crate::buffer::w3_buffer::spec_read_string;
use crate::translator::wire::sd_chars;
use crate::translator::wire::sd_float;
use crate::translator::wire::sd_int;
use crate::translator::wire::sd_mod;
use crate::translator::wire::sd_mods;
use crate::translator::wire::sd_record;
use crate::translator::wire::sd_records;
use crate::translator::wire::sd_table;
use crate::translator::wire::sd_trailer;
use crate::translator::wire::sd_value;
use crate::translator::wire::se_mod;
use crate::translator::wire::se_mods;
use crate::translator::wire::se_record;
use crate::translator::wire::se_records;
use crate::translator::wire::se_table;
use crate::translator::wire::se_value;
use crate::translator::wire::key_wf;
use crate::translator::wire::mod_wf;
use crate::translator::wire::section_wf;
use crate::translator::wire::spec_int_to_type;
use crate::translator::wire::spec_type_int;
use crate::translator::wire::table_wf;
use crate::translator::wire::value_matches_kind;
use crate::types::objects::EntrySeq;
use crate::types::objects::ModificationType;
use crate::types::objects::ModificationView;
use crate::types::objects::ObjectType;
use crate::types::objects::TableView;
use crate::types::objects::entries_contain_key;
use crate::types::objects::entries_insert;
use crate::types::objects::entries_wf;
use crate::buffer::ints::lemma_le32_inverse;
use crate::buffer::ints::spec_from_le32;
use crate::buffer::ints::spec_le32;
use vstd::prelude::*;

verus! {

// ---------------------------------------------------------------------------
// Byte-segment helpers
// ---------------------------------------------------------------------------
/// A segment equality gives pointwise byte equalities.
proof fn lemma_seg_elim(b: Seq<u8>, i: int, e: Seq<u8>)
    requires
        0 <= i,
        i + e.len() <= b.len(),
        b.subrange(i, i + e.len()) == e,
    ensures
        forall|k: int| 0 <= k < e.len() ==> b[i + k] == e[k],
{
    assert forall|k: int| 0 <= k < e.len() implies b[i + k] == e[k] by {
        assert(b.subrange(i, i + e.len())[k] == e[k]);
    }
}

/// Pointwise byte equalities give a segment equality.
proof fn lemma_seg_intro(b: Seq<u8>, i: int, e: Seq<u8>)
    requires
        0 <= i,
        i + e.len() <= b.len(),
        forall|k: int| 0 <= k < e.len() ==> b[i + k] == e[k],
    ensures
        b.subrange(i, i + e.len()) == e,
{
    assert(b.subrange(i, i + e.len()) =~= e);
}

/// A segment that is a concatenation splits into two segments.
proof fn lemma_seg_split(b: Seq<u8>, i: int, e1: Seq<u8>, e2: Seq<u8>)
    requires
        0 <= i,
        i + e1.len() + e2.len() <= b.len(),
        b.subrange(i, i + e1.len() + e2.len()) == e1 + e2,
    ensures
        b.subrange(i, i + e1.len()) == e1,
        b.subrange(i + e1.len(), i + e1.len() + e2.len()) == e2,
{
    lemma_seg_elim(b, i, e1 + e2);
    assert forall|k: int| 0 <= k < e1.len() implies b[i + k] == e1[k] by {
        assert((e1 + e2)[k] == e1[k]);
    }
    assert forall|k: int| 0 <= k < e2.len() implies b[i + e1.len() + k] == e2[k] by {
        assert(b[i + (e1.len() + k)] == (e1 + e2)[e1.len() + k]);
        assert((e1 + e2)[e1.len() + k] == e2[k]);
    }
    lemma_seg_intro(b, i, e1);
    lemma_seg_intro(b, i + e1.len(), e2);
}

// ---------------------------------------------------------------------------
// Primitive round trips
// ---------------------------------------------------------------------------
/// Decoding an encoded 32-bit integer from within a larger buffer yields the
/// integer back.
proof fn lemma_sd_int_at(b: Seq<u8>, i: int, v: i32)
    requires
        0 <= i,
        i + 4 <= b.len(),
        b.subrange(i, i + 4) == spec_enc_i32(v),
    ensures
        sd_int(b, i) == Some((v, i + 4)),
{
    lemma_le32_inverse();
    assert(spec_from_le32(spec_le32(spec_u32_of_i32(v))) == spec_u32_of_i32(v));
    assert(spec_i32_of_u32(spec_u32_of_i32(v)) == v);
}

/// An encoded 32-bit integer segment decodes back to the integer, and the
/// other way round: a decoded integer re-encodes to the consumed bytes.
proof fn lemma_enc_of_sd_int(b: Seq<u8>, i: int, v: i32, j: int)
    requires
        sd_int(b, i) == Some((v, j)),
    ensures
        j == i + 4,
        0 <= i,
        i + 4 <= b.len(),
        b.subrange(i, i + 4) == spec_enc_i32(v),
{
    lemma_le32_inverse();
    let s = b.subrange(i, i + 4);
    assert(spec_le32(spec_from_le32(s)) == s);
    assert(spec_u32_of_i32(spec_i32_of_u32(spec_from_le32(s))) == spec_from_le32(
        s,
    ));
}

/// Same, for a float bit pattern.
proof fn lemma_enc_of_sd_float(b: Seq<u8>, i: int, bits: u32, j: int)
    requires
        sd_float(b, i) == Some((bits, j)),
    ensures
        j == i + 4,
        0 <= i,
        i + 4 <= b.len(),
        b.subrange(i, i + 4) == spec_le32(bits),
{
    lemma_le32_inverse();
    let s = b.subrange(i, i + 4);
    assert(spec_le32(spec_from_le32(s)) == s);
}

/// Decoding an encoded float bit pattern yields the bits back.
proof fn lemma_sd_float_at(b: Seq<u8>, i: int, bits: u32)
    requires
        0 <= i,
        i + 4 <= b.len(),
        b.subrange(i, i + 4) == spec_le32(bits),
    ensures
        sd_float(b, i) == Some((bits, i + 4)),
{
    lemma_le32_inverse();
}

/// The encoding of zero is four zero bytes.
proof fn lemma_enc_zero()
    ensures
        spec_enc_i32(0) == spec_zeros(4),
{
    assert(spec_u32_of_i32(0) == 0);
    assert(0u32 & 0xff == 0 && (0u32 >> 8) & 0xff == 0 && (0u32 >> 16) & 0xff == 0 && (0u32 >> 24)
        & 0xff == 0) by (bit_vector);
    assert(spec_enc_i32(0) =~= spec_zeros(4));
}

/// Four zero bytes decode as the integer zero.
proof fn lemma_sd_int_zero(b: Seq<u8>, i: int)
    requires
        0 <= i,
        i + 4 <= b.len(),
        b.subrange(i, i + 4) == spec_zeros(4),
    ensures
        sd_int(b, i) == Some((0i32, i + 4)),
{
    lemma_enc_zero();
    lemma_sd_int_at(b, i, 0);
}

/// Scanning a terminated zero-free string finds exactly that string.
proof fn lemma_read_string_at(b: Seq<u8>, i: int, s: Seq<u8>)
    requires
        0 <= i,
        i + s.len() + 1 <= b.len(),
        b.subrange(i, i + s.len() + 1) == s + seq![0u8],
        forall|k: int| 0 <= k < s.len() ==> s[k] != 0u8,
    ensures
        spec_read_string(b, i) == (s, i + s.len() + 1, true),
    decreases s.len(),
{
    lemma_seg_elim(b, i, s + seq![0u8]);
    if s.len() == 0 {
        assert(b[i] == (s + seq![0u8])[0]);
        assert(b[i] == 0u8);
        assert(spec_read_string(b, i) == (Seq::<u8>::empty(), i + 1, true));
        assert(Seq::<u8>::empty() =~= s);
    } else {
        assert(b[i] == (s + seq![0u8])[0]);
        assert(b[i] == s[0]);
        assert(b[i] != 0u8);
        let t = s.drop_first();
        assert(b.subrange(i + 1, i + 1 + t.len() + 1) =~= t + seq![0u8]) by {
            assert forall|k: int| 0 <= k < t.len() + 1 implies b.subrange(
                i + 1,
                i + 1 + t.len() + 1,
            )[k] == (t + seq![0u8])[k] by {
                assert(b.subrange(i + 1, i + 1 + t.len() + 1)[k] == b[i + 1 + k]);
                assert(b[i + 1 + k] == (s + seq![0u8])[k + 1]);
                if k < t.len() {
                    assert((s + seq![0u8])[k + 1] == s[k + 1]);
                    assert(s[k + 1] == t[k]);
                    assert((t + seq![0u8])[k] == t[k]);
                } else {
                    assert((s + seq![0u8])[k + 1] == 0u8);
                    assert((t + seq![0u8])[k] == 0u8);
                }
            }
        }
        lemma_read_string_at(b, i + 1, t);
        let (rs, rj, rf) = spec_read_string(b, i);
        assert(rs == seq![b[i]] + t);
        assert(seq![b[i]] + t =~= s);
    }
}

/// A clean string scan consumed exactly the string plus its terminator, and
/// the string holds no zero byte.
proof fn lemma_enc_of_read_string(b: Seq<u8>, i: int, s: Seq<u8>, j: int)
    requires
        0 <= i <= b.len(),
        spec_read_string(b, i) == (s, j, true),
    ensures
        j == i + s.len() + 1,
        i + s.len() + 1 <= b.len(),
        b.subrange(i, j) == s + seq![0u8],
        forall|k: int| 0 <= k < s.len() ==> s[k] != 0u8,
    decreases b.len() - i,
{
    assert(i < b.len());
    if b[i] == 0u8 {
        assert(s =~= Seq::<u8>::empty());
        assert(b.subrange(i, i + 1) =~= s + seq![0u8]);
    } else {
        let (ts, tj, tf) = spec_read_string(b, i + 1);
        assert(s == seq![b[i]] + ts && j == tj && tf);
        lemma_enc_of_read_string(b, i + 1, ts, tj);
        assert(s.len() == ts.len() + 1);
        assert(b.subrange(i, j) =~= s + seq![0u8]) by {
            assert forall|k: int| 0 <= k < s.len() + 1 implies b.subrange(i, j)[k] == (s
                + seq![0u8])[k] by {
                assert(b.subrange(i, j)[k] == b[i + k]);
                if k == 0 {
                    assert((s + seq![0u8])[0] == s[0]);
                } else {
                    assert(b[i + k] == b[i + 1 + (k - 1)]);
                    assert(b.subrange(i + 1, tj)[k - 1] == b[i + 1 + (k - 1)]);
                    assert(b.subrange(i + 1, tj)[k - 1] == (ts + seq![0u8])[k - 1]);
                    if k < s.len() {
                        assert((ts + seq![0u8])[k - 1] == ts[k - 1]);
                        assert(s[k] == ts[k - 1]);
                        assert((s + seq![0u8])[k] == s[k]);
                    } else {
                        assert((ts + seq![0u8])[k - 1] == 0u8);
                        assert((s + seq![0u8])[k] == 0u8);
                    }
                }
            }
        }
        assert(forall|k: int| 1 <= k < s.len() ==> s[k] == ts[k - 1] && s[k] != 0u8);
        assert(s[0] == b[i] && s[0] != 0u8);
    }
}

/// Two adjacent segments join into one.
proof fn lemma_seg_join(b: Seq<u8>, i: int, mid: int, j: int, e1: Seq<u8>, e2: Seq<u8>)
    requires
        0 <= i <= mid <= j <= b.len(),
        b.subrange(i, mid) == e1,
        b.subrange(mid, j) == e2,
    ensures
        b.subrange(i, j) == e1 + e2,
    decreases j - i,
{
    assert(b.subrange(i, j) =~= e1 + e2) by {
        assert forall|k: int| 0 <= k < j - i implies b.subrange(i, j)[k] == (e1 + e2)[k] by {
            assert(b.subrange(i, j)[k] == b[i + k]);
            if k < mid - i {
                assert(b.subrange(i, mid)[k] == b[i + k]);
            } else {
                assert(b.subrange(mid, j)[k - (mid - i)] == b[mid + (k - (mid - i))]);
            }
        }
    }
}

/// A mapping of type tags and modification types in both directions.
proof fn lemma_type_tag_inverse()
    ensures
        forall|k: ModificationType| #[trigger] spec_int_to_type(spec_type_int(k)) == Some(k),
        forall|v: i32|
            (#[trigger] spec_int_to_type(v)) matches Some(k) ==> spec_type_int(k) == v,
{
}

// ---------------------------------------------------------------------------
// Entry-level round trip
// ---------------------------------------------------------------------------
/// Decoding the encoding of a canonical modification entry, in place inside a
/// larger buffer, yields the entry back, cleanly.
proof fn lemma_sd_mod_at(
    b: Seq<u8>,
    i: int,
    m: ModificationView,
    is_original: bool,
    ot: ObjectType,
)
    requires
        mod_wf(m, ot),
        0 <= i,
        i + se_mod(m, ot).len() <= b.len(),
        b.subrange(i, i + se_mod(m, ot).len()) == se_mod(m, ot),
    ensures
        sd_mod(b, i, is_original, ot) == Some((m, i + se_mod(m, ot).len(), true)),
{
    let ext: Seq<u8> = if ot.spec_needs_variant_fields() {
        spec_enc_i32(
            if m.level != 0 {
                m.level
            } else {
                m.variation
            },
        ) + spec_enc_i32(m.column)
    } else {
        Seq::<u8>::empty()
    };
    let tag = spec_enc_i32(spec_type_int(m.kind));
    let val = se_value(m.value);
    let e = se_mod(m, ot);
    assert(e == m.id + tag + ext + val + spec_zeros(4));
    let l0 = m.id.len() as int;
    let lt = l0 + 4;
    let le = lt + ext.len() as int;
    let lv = le + val.len() as int;
    let lz = lv + 4;
    assert(e.len() == lz);
    lemma_seg_split(b, i, m.id + tag + ext + val, spec_zeros(4));
    lemma_seg_split(b, i, m.id + tag + ext, val);
    lemma_seg_split(b, i, m.id + tag, ext);
    lemma_seg_split(b, i, m.id, tag);
    // id
    assert(sd_chars(b, i, 4) == (m.id, i + 4)) by {
        assert(m.id.len() == 4);
    }
    // kind tag
    lemma_sd_int_at(b, i + 4, spec_type_int(m.kind));
    lemma_type_tag_inverse();
    // extended fields
    if ot.spec_needs_variant_fields() {
        let lvw = if m.level != 0 {
            m.level
        } else {
            m.variation
        };
        lemma_seg_split(b, i + lt, spec_enc_i32(lvw), spec_enc_i32(m.column));
        lemma_sd_int_at(b, i + lt, lvw);
        lemma_sd_int_at(b, i + lt + 4, m.column);
        assert(lvw == m.level);
    }
    // value
    assert(sd_value(b, i + le, m.kind) == Some((m.value, i + lv, true))) by {
        match m.kind {
            ModificationType::Int => {
                let x = m.value->Int_0;
                assert(val == spec_enc_i32(x));
                lemma_sd_int_at(b, i + le, x);
            },
            ModificationType::Real | ModificationType::Unreal => {
                let bits = m.value->Real_0;
                assert(val == spec_le32(bits));
                lemma_sd_float_at(b, i + le, bits);
            },
            ModificationType::String => {
                let s = m.value->String_0;
                assert(val == s + seq![0u8]);
                lemma_read_string_at(b, i + le, s);
            },
        }
    }
    // trailer
    assert(sd_trailer(b, i + lv, is_original) == Some((i + lz, true))) by {
        assert(b.subrange(i + lv, i + lz) == spec_zeros(4));
        if is_original {
            lemma_sd_int_zero(b, i + lv);
        } else {
            assert(sd_chars(b, i + lv, 4) == (spec_zeros(4), i + lz));
        }
    }
    let d = sd_mod(b, i, is_original, ot).unwrap();
    assert(d.0 =~~= m);
    assert(d.1 == i + lz && d.2);
}

/// A cleanly decoded modification entry is canonical, and re-encoding it
/// reproduces exactly the consumed bytes.
proof fn lemma_enc_of_sd_mod(
    b: Seq<u8>,
    i: int,
    m: ModificationView,
    j: int,
    is_original: bool,
    ot: ObjectType,
)
    requires
        0 <= i <= b.len(),
        sd_mod(b, i, is_original, ot) == Some((m, j, true)),
    ensures
        mod_wf(m, ot),
        i <= j <= b.len(),
        se_mod(m, ot).len() == j - i,
        b.subrange(i, j) == se_mod(m, ot),
{
    let (id, i1) = sd_chars(b, i, 4);
    let tagr = sd_int(b, i1);
    assert(tagr is Some);
    let (tag, i2) = tagr.unwrap();
    assert(i + 4 <= b.len() && i1 == i + 4) by {
        if i + 4 > b.len() {
            assert(i1 == b.len());
            assert(sd_int(b, i1) is None);
        }
    }
    assert(id == b.subrange(i, i + 4) && id.len() == 4);
    lemma_enc_of_sd_int(b, i + 4, tag, i2);
    let kind = spec_int_to_type(tag).unwrap();
    lemma_type_tag_inverse();
    assert(spec_type_int(kind) == tag);
    let (level, column, i3) = if ot.spec_needs_variant_fields() {
        let (lv, ia) = sd_int(b, i2).unwrap();
        let (col, ib) = sd_int(b, ia).unwrap();
        lemma_enc_of_sd_int(b, i2, lv, ia);
        lemma_enc_of_sd_int(b, ia, col, ib);
        (lv, col, ib)
    } else {
        (0i32, 0i32, i2)
    };
    let (value, i4, c1) = sd_value(b, i3, kind).unwrap();
    let (i5, c2) = sd_trailer(b, i4, is_original).unwrap();
    assert(m == ModificationView { id, kind, value, level, column, variation: 0 } && j == i5 && c1
        && c2);
    // the value segment
    assert({
        &&& value_matches_kind(kind, value)
        &&& i3 <= i4 <= b.len()
        &&& b.subrange(i3, i4) == se_value(value)
    }) by {
        match kind {
            ModificationType::Int => {
                let (x, jx) = sd_int(b, i3).unwrap();
                lemma_enc_of_sd_int(b, i3, x, jx);
            },
            ModificationType::Real | ModificationType::Unreal => {
                let (bits, jx) = sd_float(b, i3).unwrap();
                lemma_enc_of_sd_float(b, i3, bits, jx);
            },
            ModificationType::String => {
                let (s, jx, f) = spec_read_string(b, i3);
                assert(f);
                lemma_enc_of_read_string(b, i3, s, jx);
            },
        }
    }
    // the trailer segment
    assert(i4 <= i5 <= b.len() && b.subrange(i4, i5) == spec_zeros(4)) by {
        if is_original {
            let (tv, jz) = sd_int(b, i4).unwrap();
            assert(tv == 0);
            lemma_enc_of_sd_int(b, i4, 0, jz);
            lemma_enc_zero();
        } else {
            let (s, jz) = sd_chars(b, i4, 4);
            assert(s == spec_zeros(4));
            assert(s.len() == 4);
            assert(jz == i4 + 4);
        }
    }
    // the extended-field segment
    let ext: Seq<u8> = if ot.spec_needs_variant_fields() {
        spec_enc_i32(
            if m.level != 0 {
                m.level
            } else {
                m.variation
            },
        ) + spec_enc_i32(m.column)
    } else {
        Seq::<u8>::empty()
    };
    assert(i2 <= i3 <= b.len() && b.subrange(i2, i3) == ext) by {
        if ot.spec_needs_variant_fields() {
            let (lv, ia) = sd_int(b, i2).unwrap();
            assert(m.level == lv && m.variation == 0);
            assert((if m.level != 0 {
                m.level
            } else {
                m.variation
            }) == lv);
            lemma_seg_join(b, i2, i2 + 4, i3, spec_enc_i32(lv), spec_enc_i32(column));
        } else {
            assert(b.subrange(i2, i2) =~= Seq::<u8>::empty());
        }
    }
    lemma_seg_join(b, i, i + 4, i2, id, spec_enc_i32(tag));
    lemma_seg_join(b, i, i2, i3, id + spec_enc_i32(tag), ext);
    lemma_seg_join(b, i, i3, i4, id + spec_enc_i32(tag) + ext, se_value(value));
    lemma_seg_join(b, i, i4, i5, id + spec_enc_i32(tag) + ext + se_value(value), spec_zeros(4));
    assert(se_mod(m, ot) == id + spec_enc_i32(tag) + ext + se_value(value) + spec_zeros(4));
}

// ---------------------------------------------------------------------------
// List-level round trip
// ---------------------------------------------------------------------------
/// Decoding the encoding of a list of canonical entries appends exactly that
/// list to the accumulator, cleanly.
proof fn lemma_sd_mods_at(
    b: Seq<u8>,
    i: int,
    ms: Seq<ModificationView>,
    acc: Seq<ModificationView>,
    clean: bool,
    is_original: bool,
    ot: ObjectType,
)
    requires
        forall|k: int| 0 <= k < ms.len() ==> mod_wf(#[trigger] ms[k], ot),
        0 <= i,
        i + se_mods(ms, ot).len() <= b.len(),
        b.subrange(i, i + se_mods(ms, ot).len()) == se_mods(ms, ot),
    ensures
        sd_mods(b, i, ms.len() as int, acc, clean, is_original, ot) == Some(
            (acc + ms, i + se_mods(ms, ot).len(), clean),
        ),
    decreases ms.len(),
{
    if ms.len() == 0 {
        assert(acc + ms =~= acc);
        assert(se_mods(ms, ot).len() == 0);
    } else {
        let m0 = ms[0];
        let rest = ms.drop_first();
        assert(se_mods(ms, ot) == se_mod(m0, ot) + se_mods(rest, ot));
        lemma_seg_split(b, i, se_mod(m0, ot), se_mods(rest, ot));
        lemma_sd_mod_at(b, i, m0, is_original, ot);
        let mid = i + se_mod(m0, ot).len();
        assert(forall|k: int| 0 <= k < rest.len() ==> mod_wf(#[trigger] rest[k], ot)) by {
            assert(forall|k: int| 0 <= k < rest.len() ==> rest[k] == ms[k + 1]);
        }
        lemma_sd_mods_at(b, mid, rest, acc.push(m0), clean && true, is_original, ot);
        assert(acc.push(m0) + rest =~= acc + ms);
        assert(sd_mods(b, i, ms.len() as int, acc, clean, is_original, ot) == sd_mods(
            b,
            mid,
            ms.len() - 1,
            acc.push(m0),
            clean && true,
            is_original,
            ot,
        ));
    }
}

/// A cleanly decoded entry list extends the accumulator by canonical entries
/// whose encoding is exactly the consumed bytes.
proof fn lemma_enc_of_sd_mods(
    b: Seq<u8>,
    i: int,
    n: int,
    acc: Seq<ModificationView>,
    cin: bool,
    ms: Seq<ModificationView>,
    j: int,
    is_original: bool,
    ot: ObjectType,
)
    requires
        0 <= i <= b.len(),
        sd_mods(b, i, n, acc, cin, is_original, ot) == Some((ms, j, true)),
    ensures
        cin,
        acc.len() <= ms.len(),
        ms.take(acc.len() as int) == acc,
        i <= j <= b.len(),
        ms.len() - acc.len() == (if n >= 0 {
            n
        } else {
            0
        }),
        b.subrange(i, j) == se_mods(ms.skip(acc.len() as int), ot),
        forall|k: int| acc.len() <= k < ms.len() ==> mod_wf(#[trigger] ms[k], ot),
    decreases
            (if n >= 0 {
                n
            } else {
                0
            }),
{
    if n <= 0 {
        assert(ms == acc && j == i);
        assert(ms.take(acc.len() as int) =~= acc);
        assert(ms.skip(acc.len() as int) =~= Seq::<ModificationView>::empty());
        assert(b.subrange(i, i) =~= se_mods(ms.skip(acc.len() as int), ot));
    } else {
        let (m0, j1, c) = sd_mod(b, i, is_original, ot).unwrap();
        assert(sd_mods(b, j1, n - 1, acc.push(m0), cin && c, is_original, ot) == Some(
            (ms, j, true),
        ));
        // the recursive result carries a true flag, so every step was clean
        assert(0 <= j1 <= b.len()) by {
            lemma_sd_mod_pos(b, i, is_original, ot);
        }
        lemma_enc_of_sd_mods(b, j1, n - 1, acc.push(m0), cin && c, ms, j, is_original, ot);
        assert(cin && c);
        lemma_enc_of_sd_mod(b, i, m0, j1, is_original, ot);
        assert(ms.take(acc.push(m0).len() as int) == acc.push(m0));
        assert(ms.take(acc.len() as int) =~= acc) by {
            assert(forall|k: int|
                0 <= k < acc.len() + 1 ==> ms.take(acc.len() as int + 1)[k] == ms[k] && acc.push(m0)[k]
                    == (if k < acc.len() {
                    acc[k]
                } else {
                    m0
                }));
        }
        assert(ms[acc.len() as int] == m0) by {
            assert(ms.take(acc.len() as int + 1)[acc.len() as int] == ms[acc.len() as int]);
            assert(acc.push(m0)[acc.len() as int] == m0);
        }
        let suf = ms.skip(acc.len() as int);
        assert(suf[0] == m0);
        assert(suf.drop_first() =~= ms.skip(acc.len() as int + 1));
        assert(se_mods(suf, ot) == se_mod(m0, ot) + se_mods(ms.skip(acc.len() as int + 1), ot));
        lemma_seg_join(b, i, j1, j, se_mod(m0, ot), se_mods(ms.skip(acc.len() as int + 1), ot));
    }
}

/// A successful entry decode lands within the buffer.
proof fn lemma_sd_mod_pos(b: Seq<u8>, i: int, is_original: bool, ot: ObjectType)
    requires
        0 <= i <= b.len(),
        sd_mod(b, i, is_original, ot) is Some,
    ensures
        i <= sd_mod(b, i, is_original, ot).unwrap().1 <= b.len(),
{
    let (m, j, c) = sd_mod(b, i, is_original, ot).unwrap();
    let (id, i1) = sd_chars(b, i, 4);
    let (tag, i2) = sd_int(b, i1).unwrap();
    let i3 = if ot.spec_needs_variant_fields() {
        sd_int(b, sd_int(b, i2).unwrap().1).unwrap().1
    } else {
        i2
    };
    let (value, i4, c1) = sd_value(b, i3, spec_int_to_type(tag).unwrap()).unwrap();
    assert(i3 <= i4 <= b.len()) by {
        match spec_int_to_type(tag).unwrap() {
            ModificationType::Int => {},
            ModificationType::Real | ModificationType::Unreal => {},
            ModificationType::String => {
                lemma_read_string_pos(b, i3);
            },
        }
    }
}

/// The string scan never leaves the buffer (plus one for the terminator).
proof fn lemma_read_string_pos(b: Seq<u8>, i: int)
    requires
        0 <= i <= b.len(),
    ensures
        i <= spec_read_string(b, i).1 <= b.len(),
    decreases b.len() - i,
{
    if i < b.len() && b[i] != 0u8 {
        lemma_read_string_pos(b, i + 1);
    }
}

// ---------------------------------------------------------------------------
// Record-level round trip
// ---------------------------------------------------------------------------
/// Decoding the encoding of a well-formed record yields the record back,
/// cleanly.
proof fn lemma_sd_record_at(
    b: Seq<u8>,
    i: int,
    key: Seq<u8>,
    ms: Seq<ModificationView>,
    is_original: bool,
    ot: ObjectType,
)
    requires
        key_wf(key, is_original),
        ms.len() <= i32::MAX,
        forall|k: int| 0 <= k < ms.len() ==> mod_wf(#[trigger] ms[k], ot),
        0 <= i,
        i + se_record(key, ms, is_original, ot).len() <= b.len(),
        b.subrange(i, i + se_record(key, ms, is_original, ot).len()) == se_record(
            key,
            ms,
            is_original,
            ot,
        ),
    ensures
        sd_record(b, i, is_original, ot) == Some(
            ((key, ms), i + se_record(key, ms, is_original, ot).len(), true),
        ),
{
    let ids: Seq<u8> = if is_original {
        key + spec_zeros(4)
    } else {
        key.subrange(5, 9) + key.subrange(0, 4)
    };
    let cnt = spec_enc_i32(ms.len() as i32);
    let e = se_record(key, ms, is_original, ot);
    assert(e == ids + cnt + se_mods(ms, ot));
    assert(ids.len() == 8);
    lemma_seg_split(b, i, ids + cnt, se_mods(ms, ot));
    lemma_seg_split(b, i, ids, cnt);
    let first: Seq<u8> = if is_original {
        key
    } else {
        key.subrange(5, 9)
    };
    let second: Seq<u8> = if is_original {
        spec_zeros(4)
    } else {
        key.subrange(0, 4)
    };
    assert(ids == first + second);
    lemma_seg_split(b, i, first, second);
    assert(sd_chars(b, i, 4) == (first, i + 4));
    assert(sd_chars(b, i + 4, 4) == (second, i + 8));
    lemma_sd_int_at(b, i + 8, ms.len() as i32);
    assert((ms.len() as i32) as int == ms.len());
    lemma_sd_mods_at(
        b,
        i + 12,
        ms,
        Seq::<ModificationView>::empty(),
        true,
        is_original,
        ot,
    );
    assert(Seq::<ModificationView>::empty() + ms =~= ms);
    let d = sd_record(b, i, is_original, ot).unwrap();
    if is_original {
        assert(d.0.0 == key);
    } else {
        assert(d.0.0 =~= key) by {
            assert(key.len() == 9 && key[4] == 0x3Au8);
            assert(d.0.0 == second + seq![0x3Au8] + first);
        }
    }
    assert(d.0.1 == ms && d.1 == i + e.len() && d.2);
    assert(d.0 =~~= (key, ms));
}

/// A cleanly decoded record is well-formed and re-encodes to exactly the
/// consumed bytes.
proof fn lemma_enc_of_sd_record(
    b: Seq<u8>,
    i: int,
    key: Seq<u8>,
    ms: Seq<ModificationView>,
    j: int,
    is_original: bool,
    ot: ObjectType,
)
    requires
        0 <= i <= b.len(),
        sd_record(b, i, is_original, ot) == Some(((key, ms), j, true)),
    ensures
        key_wf(key, is_original),
        ms.len() <= i32::MAX,
        forall|k: int| 0 <= k < ms.len() ==> mod_wf(#[trigger] ms[k], ot),
        i <= j <= b.len(),
        se_record(key, ms, is_original, ot).len() == j - i,
        b.subrange(i, j) == se_record(key, ms, is_original, ot),
{
    let (oid, i1) = sd_chars(b, i, 4);
    let (cid, i2) = sd_chars(b, i1, 4);
    let (cnt, i3) = sd_int(b, i2).unwrap();
    assert(i + 8 <= b.len() && i1 == i + 4 && i2 == i + 8) by {
        if i1 + 4 > b.len() {
            assert(i2 == b.len());
            assert(sd_int(b, i2) is None);
        }
        if i + 4 > b.len() {
            assert(i1 == b.len());
            assert(i2 == b.len());
            assert(sd_int(b, i2) is None);
        }
    }
    assert(oid == b.subrange(i, i + 4) && oid.len() == 4);
    assert(cid == b.subrange(i + 4, i + 8) && cid.len() == 4);
    lemma_enc_of_sd_int(b, i + 8, cnt, i3);
    let mr = sd_mods(b, i3, cnt as int, Seq::<ModificationView>::empty(), true, is_original, ot);
    assert(mr == Some((ms, j, true)) && cnt >= 0);
    lemma_enc_of_sd_mods(
        b,
        i3,
        cnt as int,
        Seq::<ModificationView>::empty(),
        true,
        ms,
        j,
        is_original,
        ot,
    );
    assert(ms.skip(0) =~= ms);
    assert(ms.take(0) =~= Seq::<ModificationView>::empty());
    assert(ms.len() == cnt as int);
    assert((ms.len() as i32) == cnt);
    // the id segment re-encodes
    let ids: Seq<u8> = if is_original {
        key + spec_zeros(4)
    } else {
        key.subrange(5, 9) + key.subrange(0, 4)
    };
    assert(b.subrange(i, i + 8) == ids) by {
        if is_original {
            assert(key == oid);
            assert(cid == spec_zeros(4));
            lemma_seg_join(b, i, i + 4, i + 8, oid, spec_zeros(4));
        } else {
            assert(key == cid + seq![0x3Au8] + oid);
            assert(key.subrange(5, 9) =~= oid);
            assert(key.subrange(0, 4) =~= cid);
            lemma_seg_join(b, i, i + 4, i + 8, key.subrange(5, 9), key.subrange(0, 4));
        }
    }
    assert(key_wf(key, is_original)) by {
        if !is_original {
            assert(key == cid + seq![0x3Au8] + oid);
            assert(key.len() == 9);
            assert(key[4] == 0x3Au8);
        }
    }
    lemma_seg_join(b, i, i + 8, i3, ids, spec_enc_i32(cnt));
    lemma_seg_join(b, i, i3, j, ids + spec_enc_i32(cnt), se_mods(ms, ot));
    assert(se_record(key, ms, is_original, ot) == ids + spec_enc_i32(ms.len() as i32) + se_mods(
        ms,
        ot,
    ));
}

// ---------------------------------------------------------------------------
// Section-level round trip
// ---------------------------------------------------------------------------
/// Decoding the encoding of a sequence of well-formed records with fresh,
/// pairwise-distinct keys appends exactly those entries, cleanly.
proof fn lemma_sd_records_at(
    b: Seq<u8>,
    i: int,
    es: EntrySeq,
    acc: EntrySeq,
    clean: bool,
    is_original: bool,
    ot: ObjectType,
)
    requires
        entries_wf(es),
        forall|k: int| 0 <= k < es.len() ==> key_wf((#[trigger] es[k]).0, is_original),
        forall|k: int| 0 <= k < es.len() ==> (#[trigger] es[k]).1.len() <= i32::MAX,
        forall|k: int, x: int|
            0 <= k < es.len() && 0 <= x < (#[trigger] es[k]).1.len() ==> mod_wf(
                #[trigger] es[k].1[x],
                ot,
            ),
        forall|k: int| 0 <= k < es.len() ==> !entries_contain_key(acc, (#[trigger] es[k]).0),
        0 <= i,
        i + se_records(es, is_original, ot).len() <= b.len(),
        b.subrange(i, i + se_records(es, is_original, ot).len()) == se_records(
            es,
            is_original,
            ot,
        ),
    ensures
        sd_records(b, i, es.len() as int, acc, clean, is_original, ot) == Some(
            (acc + es, i + se_records(es, is_original, ot).len(), clean),
        ),
    decreases es.len(),
{
    if es.len() == 0 {
        assert(acc + es =~= acc);
        assert(se_records(es, is_original, ot).len() == 0);
    } else {
        let e0 = es[0];
        let rest = es.drop_first();
        assert(se_records(es, is_original, ot) == se_record(e0.0, e0.1, is_original, ot)
            + se_records(rest, is_original, ot));
        lemma_seg_split(b, i, se_record(e0.0, e0.1, is_original, ot), se_records(
            rest,
            is_original,
            ot,
        ));
        lemma_sd_record_at(b, i, e0.0, e0.1, is_original, ot);
        let mid = i + se_record(e0.0, e0.1, is_original, ot).len();
        assert(!entries_contain_key(acc, e0.0));
        crate::types::objects::lemma_entries_insert_fresh(acc, e0.0, e0.1);
        assert(entries_insert(acc, e0.0, e0.1) == acc.push(e0));
        assert(forall|k: int| 0 <= k < rest.len() ==> rest[k] == es[k + 1]);
        assert(entries_wf(rest));
        assert(forall|k: int|
            0 <= k < rest.len() ==> !entries_contain_key(acc.push(e0), (#[trigger] rest[k]).0))
            by {
            assert forall|k: int| 0 <= k < rest.len() implies !entries_contain_key(
                acc.push(e0),
                (#[trigger] rest[k]).0,
            ) by {
                assert(rest[k] == es[k + 1]);
                assert(es[k + 1].0 != es[0].0);
                assert(!entries_contain_key(acc, es[k + 1].0));
                assert(forall|x: int|
                    0 <= x < acc.push(e0).len() ==> acc.push(e0)[x] == (if x < acc.len() {
                        acc[x]
                    } else {
                        e0
                    }));
            }
        }
        lemma_sd_records_at(b, mid, rest, acc.push(e0), clean && true, is_original, ot);
        assert(acc.push(e0) + rest =~= acc + es);
        assert(sd_records(b, i, es.len() as int, acc, clean, is_original, ot) == sd_records(
            b,
            mid,
            es.len() - 1,
            acc.push(e0),
            clean && true && !entries_contain_key(acc, e0.0),
            is_original,
            ot,
        ));
    }
}

/// A cleanly decoded record sequence appends well-formed entries with fresh
/// keys, and re-encodes to exactly the consumed bytes.
proof fn lemma_enc_of_sd_records(
    b: Seq<u8>,
    i: int,
    n: int,
    acc: EntrySeq,
    cin: bool,
    es: EntrySeq,
    j: int,
    is_original: bool,
    ot: ObjectType,
)
    requires
        0 <= i <= b.len(),
        entries_wf(acc),
        sd_records(b, i, n, acc, cin, is_original, ot) == Some((es, j, true)),
    ensures
        cin,
        acc.len() <= es.len(),
        es.take(acc.len() as int) == acc,
        i <= j <= b.len(),
        es.len() - acc.len() == (if n >= 0 {
            n
        } else {
            0
        }),
        b.subrange(i, j) == se_records(es.skip(acc.len() as int), is_original, ot),
        entries_wf(es),
        forall|k: int| acc.len() <= k < es.len() ==> key_wf((#[trigger] es[k]).0, is_original),
        forall|k: int| acc.len() <= k < es.len() ==> (#[trigger] es[k]).1.len() <= i32::MAX,
        forall|k: int, x: int|
            acc.len() <= k < es.len() && 0 <= x < (#[trigger] es[k]).1.len() ==> mod_wf(
                #[trigger] es[k].1[x],
                ot,
            ),
    decreases
            (if n >= 0 {
                n
            } else {
                0
            }),
{
    if n <= 0 {
        assert(es == acc && j == i);
        assert(es.take(acc.len() as int) =~= acc);
        assert(es.skip(acc.len() as int) =~= Seq::<(Seq<u8>, Seq<ModificationView>)>::empty());
        assert(b.subrange(i, i) =~= se_records(es.skip(acc.len() as int), is_original, ot));
    } else {
        let ((key, ms), j1, c) = sd_record(b, i, is_original, ot).unwrap();
        let fresh = !entries_contain_key(acc, key);
        assert(sd_records(b, j1, n - 1, entries_insert(acc, key, ms), cin && c && fresh,
            is_original, ot) == Some((es, j, true)));
        assert(0 <= j1 <= b.len()) by {
            lemma_sd_record_pos(b, i, is_original, ot);
        }
        assert(entries_wf(entries_insert(acc, key, ms))) by {
            if fresh {
                crate::types::objects::lemma_entries_insert_fresh(acc, key, ms);
            } else {
                let w = choose|w: int| 0 <= w < acc.len() && acc[w].0 == key;
                crate::types::objects::lemma_entries_insert_found(acc, key, ms, w);
            }
        }
        lemma_enc_of_sd_records(
            b,
            j1,
            n - 1,
            entries_insert(acc, key, ms),
            cin && c && fresh,
            es,
            j,
            is_original,
            ot,
        );
        assert(cin && c && fresh);
        crate::types::objects::lemma_entries_insert_fresh(acc, key, ms);
        let acc1 = acc.push((key, ms));
        assert(entries_insert(acc, key, ms) == acc1);
        lemma_enc_of_sd_record(b, i, key, ms, j1, is_original, ot);
        assert(es.take(acc1.len() as int) == acc1);
        assert(es.take(acc.len() as int) =~= acc) by {
            assert(forall|k: int|
                0 <= k < acc.len() + 1 ==> es.take(acc.len() as int + 1)[k] == es[k]
                    && acc1[k] == (if k < acc.len() {
                    acc[k]
                } else {
                    (key, ms)
                }));
        }
        assert(es[acc.len() as int] == (key, ms)) by {
            assert(es.take(acc.len() as int + 1)[acc.len() as int] == es[acc.len() as int]);
            assert(acc1[acc.len() as int] == (key, ms));
        }
        let suf = es.skip(acc.len() as int);
        assert(suf[0] == (key, ms));
        assert(suf.drop_first() =~= es.skip(acc.len() as int + 1));
        assert(se_records(suf, is_original, ot) == se_record(key, ms, is_original, ot)
            + se_records(es.skip(acc.len() as int + 1), is_original, ot));
        lemma_seg_join(
            b,
            i,
            j1,
            j,
            se_record(key, ms, is_original, ot),
            se_records(es.skip(acc.len() as int + 1), is_original, ot),
        );
    }
}

/// A successful record decode lands within the buffer.
proof fn lemma_sd_record_pos(b: Seq<u8>, i: int, is_original: bool, ot: ObjectType)
    requires
        0 <= i <= b.len(),
        sd_record(b, i, is_original, ot) is Some,
    ensures
        i <= sd_record(b, i, is_original, ot).unwrap().1 <= b.len(),
{
    let (oid, i1) = sd_chars(b, i, 4);
    let (cid, i2) = sd_chars(b, i1, 4);
    let (cnt, i3) = sd_int(b, i2).unwrap();
    lemma_sd_mods_pos(b, i3, cnt as int, is_original, ot);
}

/// A successful list decode lands within the buffer.
proof fn lemma_sd_mods_pos(b: Seq<u8>, i: int, n: int, is_original: bool, ot: ObjectType)
    requires
        0 <= i <= b.len(),
        (exists|acc: Seq<ModificationView>, cl: bool|
            sd_mods(b, i, n, acc, cl, is_original, ot) is Some),
    ensures
        forall|acc: Seq<ModificationView>, cl: bool|
            (#[trigger] sd_mods(b, i, n, acc, cl, is_original, ot)) matches Some(p) ==> i <= p.1
                <= b.len(),
    decreases
            (if n >= 0 {
                n
            } else {
                0
            }),
{
    if n <= 0 {
    } else {
        assert forall|acc: Seq<ModificationView>, cl: bool|
            (#[trigger] sd_mods(b, i, n, acc, cl, is_original, ot)) is Some implies i <= sd_mods(
            b,
            i,
            n,
            acc,
            cl,
            is_original,
            ot,
        ).unwrap().1 <= b.len() by {
            let (m0, j1, c) = sd_mod(b, i, is_original, ot).unwrap();
            lemma_sd_mod_pos(b, i, is_original, ot);
            lemma_sd_mods_pos(b, j1, n - 1, is_original, ot);
            let p2 = sd_mods(b, j1, n - 1, acc.push(m0), cl && c, is_original, ot).unwrap();
        }
    }
}

// ---------------------------------------------------------------------------
// The round-trip laws
// ---------------------------------------------------------------------------
/// Encoding then decoding is the identity on well-formed tables, and the
/// encoding is clean: every well-formed table survives a full round trip
/// through its wire form unchanged.
#[verifier::rlimit(60)]
pub proof fn lemma_encode_then_decode(t: TableView, ot: ObjectType)
    requires
        table_wf(t, ot),
    ensures
        sd_table(se_table(t, ot), ot) == Some((t, true)),
{
    let b = se_table(t, ot);
    let eo = se_records(t.original, true, ot);
    let ec = se_records(t.custom, false, ot);
    let co = spec_enc_i32(t.original.len() as i32);
    let cc = spec_enc_i32(t.custom.len() as i32);
    assert(b == spec_enc_i32(2) + co + eo + cc + ec);
    assert(b.subrange(0, b.len() as int) =~= b);
    lemma_seg_split(b, 0, spec_enc_i32(2) + co + eo + cc, ec);
    lemma_seg_split(b, 0, spec_enc_i32(2) + co + eo, cc);
    lemma_seg_split(b, 0, spec_enc_i32(2) + co, eo);
    lemma_seg_split(b, 0, spec_enc_i32(2), co);
    lemma_sd_int_at(b, 0, 2);
    lemma_sd_int_at(b, 4, t.original.len() as i32);
    let i1 = 8 + eo.len() as int;
    lemma_sd_records_at(b, 8, t.original, Seq::empty(), true, true, ot);
    assert(Seq::<(Seq<u8>, Seq<ModificationView>)>::empty() + t.original =~= t.original);
    lemma_sd_int_at(b, i1, t.custom.len() as i32);
    lemma_sd_records_at(b, i1 + 4, t.custom, Seq::empty(), true, false, ot);
    assert(Seq::<(Seq<u8>, Seq<ModificationView>)>::empty() + t.custom =~= t.custom);
    let d = sd_table(b, ot).unwrap();
    assert(d.0 =~~= t);
    assert(d.1);
}

/// Decoding then encoding is the identity on clean buffers: whenever a buffer
/// decodes with the clean flag set (version 2, zero pad and trailer slots,
/// terminated strings, unique keys, non-negative counts, no trailing bytes),
/// re-encoding the decoded table reproduces the buffer byte for byte, and the
/// decoded table is well-formed.
pub proof fn lemma_decode_then_encode(b: Seq<u8>, t: TableView, ot: ObjectType)
    requires
        sd_table(b, ot) == Some((t, true)),
    ensures
        se_table(t, ot) == b,
        table_wf(t, ot),
{
    let (ver, i1) = sd_int(b, 0).unwrap();
    lemma_enc_of_sd_int(b, 0, ver, i1);
    assert(ver == 2);
    let (ocnt, i2) = sd_int(b, i1).unwrap();
    lemma_enc_of_sd_int(b, i1, ocnt, i2);
    let ro = sd_records(b, i2, ocnt as int, Seq::empty(), true, true, ot);
    assert(ro matches Some(p) && p.0 == t.original && p.2);
    let (orig, i3, c1) = ro.unwrap();
    lemma_enc_of_sd_records(b, i2, ocnt as int, Seq::empty(), true, orig, i3, true, ot);
    assert(orig.skip(0) =~= orig);
    assert(ocnt >= 0 && orig.len() == ocnt as int);
    let (ccnt, i4) = sd_int(b, i3).unwrap();
    lemma_enc_of_sd_int(b, i3, ccnt, i4);
    let rc = sd_records(b, i4, ccnt as int, Seq::empty(), true, false, ot);
    assert(rc matches Some(p) && p.0 == t.custom && p.2);
    let (cust, i5, c2) = rc.unwrap();
    lemma_enc_of_sd_records(b, i4, ccnt as int, Seq::empty(), true, cust, i5, false, ot);
    assert(cust.skip(0) =~= cust);
    assert(ccnt >= 0 && cust.len() == ccnt as int);
    assert(i5 == b.len());
    assert((orig.len() as i32) == ocnt);
    assert((cust.len() as i32) == ccnt);
    lemma_seg_join(b, 0, 4, 8, spec_enc_i32(2), spec_enc_i32(ocnt));
    lemma_seg_join(b, 0, 8, i3, spec_enc_i32(2) + spec_enc_i32(ocnt), se_records(orig, true, ot));
    lemma_seg_join(
        b,
        0,
        i3,
        i4,
        spec_enc_i32(2) + spec_enc_i32(ocnt) + se_records(orig, true, ot),
        spec_enc_i32(ccnt),
    );
    lemma_seg_join(
        b,
        0,
        i4,
        i5,
        spec_enc_i32(2) + spec_enc_i32(ocnt) + se_records(orig, true, ot) + spec_enc_i32(ccnt),
        se_records(cust, false, ot),
    );
    assert(b.subrange(0, b.len() as int) =~= b);
}

// ---------------------------------------------------------------------------
// Canonical shape of every decoded table
// ---------------------------------------------------------------------------
/// The scanned string content never holds a zero byte.
proof fn lemma_read_string_no_zeros(b: Seq<u8>, i: int)
    ensures
        forall|k: int|
            0 <= k < spec_read_string(b, i).0.len() ==> spec_read_string(b, i).0[k] != 0u8,
    decreases b.len() - i,
{
    if 0 <= i < b.len() && b[i] != 0u8 {
        lemma_read_string_no_zeros(b, i + 1);
        let (ts, tj, tf) = spec_read_string(b, i + 1);
        let s = spec_read_string(b, i).0;
        assert(s == seq![b[i]] + ts);
        assert(forall|k: int| 1 <= k < s.len() ==> s[k] == ts[k - 1]);
    }
}

/// Every successfully decoded modification entry is canonical, whatever the
/// rest of the buffer holds: 4-byte id, value variant matching its kind (with
/// both float kinds carried in the `Real` variant), variation zero, and zero
/// level and column for object types without the extended layout.
proof fn lemma_sd_mod_wf(b: Seq<u8>, i: int, is_original: bool, ot: ObjectType)
    requires
        0 <= i <= b.len(),
        sd_mod(b, i, is_original, ot) is Some,
    ensures
        mod_wf(sd_mod(b, i, is_original, ot).unwrap().0, ot),
{
    let (id, i1) = sd_chars(b, i, 4);
    let (tag, i2) = sd_int(b, i1).unwrap();
    assert(i + 4 <= b.len() && i1 == i + 4) by {
        if i + 4 > b.len() {
            assert(i1 == b.len());
            assert(sd_int(b, i1) is None);
        }
    }
    assert(id.len() == 4);
    let kind = spec_int_to_type(tag).unwrap();
    let i3 = if ot.spec_needs_variant_fields() {
        sd_int(b, sd_int(b, i2).unwrap().1).unwrap().1
    } else {
        i2
    };
    let (value, i4, c1) = sd_value(b, i3, kind).unwrap();
    assert(value_matches_kind(kind, value)) by {
        match kind {
            ModificationType::Int => {},
            ModificationType::Real | ModificationType::Unreal => {},
            ModificationType::String => {
                lemma_read_string_no_zeros(b, i3);
            },
        }
    }
}

/// Every entry appended by a successful list decode is canonical.
proof fn lemma_sd_mods_wf(
    b: Seq<u8>,
    i: int,
    n: int,
    acc: Seq<ModificationView>,
    cl: bool,
    is_original: bool,
    ot: ObjectType,
)
    requires
        0 <= i <= b.len(),
        forall|k: int| 0 <= k < acc.len() ==> mod_wf(#[trigger] acc[k], ot),
        sd_mods(b, i, n, acc, cl, is_original, ot) is Some,
    ensures
        ({
            let (ms, j, c) = sd_mods(b, i, n, acc, cl, is_original, ot).unwrap();
            &&& forall|k: int| 0 <= k < ms.len() ==> mod_wf(#[trigger] ms[k], ot)
            &&& ms.len() <= acc.len() + (if n >= 0 {
                n
            } else {
                0
            })
            &&& i <= j <= b.len()
        }),
    decreases
            (if n >= 0 {
                n
            } else {
                0
            }),
{
    if n <= 0 {
    } else {
        let (m0, j1, c0) = sd_mod(b, i, is_original, ot).unwrap();
        lemma_sd_mod_pos(b, i, is_original, ot);
        lemma_sd_mod_wf(b, i, is_original, ot);
        assert(forall|k: int|
            0 <= k < acc.push(m0).len() ==> mod_wf(#[trigger] acc.push(m0)[k], ot)) by {
            assert(forall|k: int|
                0 <= k < acc.push(m0).len() ==> acc.push(m0)[k] == (if k < acc.len() {
                    acc[k]
                } else {
                    m0
                }));
        }
        lemma_sd_mods_wf(b, j1, n - 1, acc.push(m0), cl && c0, is_original, ot);
    }
}

/// Every entry of a map stays an entry of it, or is the inserted pair, after
/// an ordered-map insertion.
proof fn lemma_entries_insert_membership(s: EntrySeq, k: Seq<u8>, v: Seq<ModificationView>)
    ensures
        forall|x: int|
            0 <= x < entries_insert(s, k, v).len() ==> (exists|y: int|
                0 <= y < s.len() && s[y] == #[trigger] entries_insert(s, k, v)[x])
                || entries_insert(s, k, v)[x] == (k, v),
        entries_insert(s, k, v).len() <= s.len() + 1,
    decreases s.len(),
{
    if s.len() == 0 {
    } else if s[0].0 == k {
        assert forall|x: int| 0 <= x < entries_insert(s, k, v).len() implies (exists|y: int|
            0 <= y < s.len() && s[y] == #[trigger] entries_insert(s, k, v)[x]) || entries_insert(
            s,
            k,
            v,
        )[x] == (k, v) by {
            if x > 0 {
                assert(entries_insert(s, k, v)[x] == s.drop_first()[x - 1]);
                assert(s.drop_first()[x - 1] == s[x]);
            }
        }
    } else {
        lemma_entries_insert_membership(s.drop_first(), k, v);
        assert forall|x: int| 0 <= x < entries_insert(s, k, v).len() implies (exists|y: int|
            0 <= y < s.len() && s[y] == #[trigger] entries_insert(s, k, v)[x]) || entries_insert(
            s,
            k,
            v,
        )[x] == (k, v) by {
            if x == 0 {
                assert(entries_insert(s, k, v)[0] == s[0]);
            } else {
                let t = entries_insert(s.drop_first(), k, v);
                assert(entries_insert(s, k, v)[x] == t[x - 1]);
                if exists|y: int| 0 <= y < s.drop_first().len() && s.drop_first()[y] == t[x - 1] {
                    let y = choose|y: int|
                        0 <= y < s.drop_first().len() && s.drop_first()[y] == t[x - 1];
                    assert(s[y + 1] == t[x - 1]);
                }
            }
        }
    }
}

/// Ordered-map insertion preserves key uniqueness.
proof fn lemma_entries_insert_wf(s: EntrySeq, k: Seq<u8>, v: Seq<ModificationView>)
    requires
        entries_wf(s),
    ensures
        entries_wf(entries_insert(s, k, v)),
{
    if entries_contain_key(s, k) {
        let w = choose|w: int| 0 <= w < s.len() && s[w].0 == k;
        crate::types::objects::lemma_entries_insert_found(s, k, v, w);
    } else {
        crate::types::objects::lemma_entries_insert_fresh(s, k, v);
    }
}

/// Every record decode produces a well-formed key and canonical entries.
proof fn lemma_sd_record_wf(b: Seq<u8>, i: int, is_original: bool, ot: ObjectType)
    requires
        0 <= i <= b.len(),
        sd_record(b, i, is_original, ot) is Some,
    ensures
        ({
            let ((key, ms), j, c) = sd_record(b, i, is_original, ot).unwrap();
            &&& key_wf(key, is_original)
            &&& ms.len() <= i32::MAX
            &&& forall|k: int| 0 <= k < ms.len() ==> mod_wf(#[trigger] ms[k], ot)
            &&& i <= j <= b.len()
        }),
{
    let (oid, i1) = sd_chars(b, i, 4);
    let (cid, i2) = sd_chars(b, i1, 4);
    let (cnt, i3) = sd_int(b, i2).unwrap();
    assert(i + 8 <= b.len() && i1 == i + 4 && i2 == i + 8) by {
        if i1 + 4 > b.len() {
            assert(i2 == b.len());
            assert(sd_int(b, i2) is None);
        }
        if i + 4 > b.len() {
            assert(i1 == b.len());
            assert(i2 == b.len());
            assert(sd_int(b, i2) is None);
        }
    }
    assert(oid.len() == 4 && cid.len() == 4);
    lemma_sd_mods_wf(b, i3, cnt as int, Seq::empty(), true, is_original, ot);
    let ((key, ms), j, c) = sd_record(b, i, is_original, ot).unwrap();
    if !is_original {
        assert(key == cid + seq![0x3Au8] + oid);
        assert(key.len() == 9 && key[4] == 0x3Au8);
    }
}

/// Every section decode keeps the accumulated table well-formed.
proof fn lemma_sd_records_wf(
    b: Seq<u8>,
    i: int,
    n: int,
    acc: EntrySeq,
    cl: bool,
    is_original: bool,
    ot: ObjectType,
)
    requires
        0 <= i <= b.len(),
        entries_wf(acc),
        acc.len() + (if n >= 0 {
            n
        } else {
            0
        }) <= i32::MAX,
        forall|k: int| 0 <= k < acc.len() ==> key_wf((#[trigger] acc[k]).0, is_original),
        forall|k: int| 0 <= k < acc.len() ==> (#[trigger] acc[k]).1.len() <= i32::MAX,
        forall|k: int, x: int|
            0 <= k < acc.len() && 0 <= x < (#[trigger] acc[k]).1.len() ==> mod_wf(
                #[trigger] acc[k].1[x],
                ot,
            ),
        sd_records(b, i, n, acc, cl, is_original, ot) is Some,
    ensures
        ({
            let (es, j, c) = sd_records(b, i, n, acc, cl, is_original, ot).unwrap();
            &&& section_wf(es, is_original, ot)
            &&& i <= j <= b.len()
        }),
    decreases
            (if n >= 0 {
                n
            } else {
                0
            }),
{
    if n <= 0 {
        assert(section_wf(acc, is_original, ot));
    } else {
        let ((key, ms), j1, c0) = sd_record(b, i, is_original, ot).unwrap();
        lemma_sd_record_pos(b, i, is_original, ot);
        lemma_sd_record_wf(b, i, is_original, ot);
        let acc1 = entries_insert(acc, key, ms);
        lemma_entries_insert_wf(acc, key, ms);
        lemma_entries_insert_membership(acc, key, ms);
        assert(forall|k: int| 0 <= k < acc1.len() ==> key_wf((#[trigger] acc1[k]).0, is_original));
        assert(forall|k: int| 0 <= k < acc1.len() ==> (#[trigger] acc1[k]).1.len() <= i32::MAX);
        assert(forall|k: int, x: int|
            0 <= k < acc1.len() && 0 <= x < (#[trigger] acc1[k]).1.len() ==> mod_wf(
                #[trigger] acc1[k].1[x],
                ot,
            ));
        lemma_sd_records_wf(b, j1, n - 1, acc1, cl && c0 && !entries_contain_key(acc, key),
            is_original, ot);
    }
}

/// Every table a successful decode returns is well-formed, whatever the
/// buffer held: unique keys of the right shape (4-byte original keys; 9-byte
/// custom keys composed as `customId ':' originalId`), canonical entries with
/// `variation` zero, and, for object types without the extended layout, zero
/// `level` and `column` throughout.
pub proof fn lemma_decoded_table_wf(b: Seq<u8>, ot: ObjectType)
    requires
        sd_table(b, ot) is Some,
    ensures
        table_wf(sd_table(b, ot).unwrap().0, ot),
{
    let (ver, i1) = sd_int(b, 0).unwrap();
    let (ocnt, i2) = sd_int(b, i1).unwrap();
    lemma_sd_records_wf(b, i2, ocnt as int, Seq::empty(), true, true, ot);
    let (orig, i3, c1) = sd_records(b, i2, ocnt as int, Seq::empty(), true, true, ot).unwrap();
    let (ccnt, i4) = sd_int(b, i3).unwrap();
    lemma_sd_records_wf(b, i4, ccnt as int, Seq::empty(), true, false, ot);
}

// ---------------------------------------------------------------------------
// Entry-level fidelity and kind rejection
// ---------------------------------------------------------------------------
/// Per-kind value fidelity: a canonical modification entry survives encoding
/// and decoding unchanged, for every kind — the exact 32-bit integer, the
/// exact float bit pattern, and the exact byte string.
pub proof fn lemma_modification_round_trip(
    m: ModificationView,
    is_original: bool,
    ot: ObjectType,
)
    requires
        mod_wf(m, ot),
    ensures
        sd_mod(se_mod(m, ot), 0, is_original, ot) == Some(
            (m, se_mod(m, ot).len() as int, true),
        ),
{
    let b = se_mod(m, ot);
    assert(b.subrange(0, b.len() as int) =~= b);
    lemma_sd_mod_at(b, 0, m, is_original, ot);
}

/// A kind tag outside 0..=3 makes the entry — and with it the whole decode —
/// fail; it is never silently defaulted.
pub proof fn lemma_invalid_kind_rejected(b: Seq<u8>, i: int, is_original: bool, ot: ObjectType)
    requires
        ({
            let (id, i1) = sd_chars(b, i, 4);
            sd_int(b, i1) matches Some(p) && !(0 <= p.0 <= 3)
        }),
    ensures
        sd_mod(b, i, is_original, ot) is None,
{
}

} // verus!
