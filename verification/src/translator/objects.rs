use crate::buffer::HexBuffer;
use crate::buffer::W3Buffer;
use crate::translator::wire::counts_fit;
use crate::translator::wire::lemma_se_mods_snoc;
use crate::translator::wire::lemma_se_records_snoc;
use crate::translator::wire::mods_fit;
use crate::translator::wire::sd_chars;
use crate::translator::wire::sd_int;
use crate::translator::wire::sd_mod;
use crate::translator::wire::sd_mods;
use crate::translator::wire::sd_record;
use crate::translator::wire::sd_records;
use crate::translator::wire::sd_section;
use crate::translator::wire::sd_table;
use crate::translator::wire::se_mod;
use crate::translator::wire::se_mods;
use crate::translator::wire::se_record;
use crate::translator::wire::se_records;
use crate::translator::wire::se_table;
use crate::translator::wire::spec_int_to_type;
use crate::translator::wire::spec_type_int;
use crate::types::objects::EntrySeq;
use crate::types::objects::Modification;
use crate::types::objects::ModificationType;
use crate::types::objects::ModificationValue;
use crate::types::objects::ModificationView;
use crate::types::objects::ObjectModificationTable;
use crate::types::objects::ObjectType;
use crate::types::objects::TableType;
use crate::types::objects::entries_contain_key;
use crate::types::objects::mods_view;
use crate::types::results::TranslationError;
use vstd::prelude::*;
use vstd::slice::slice_subrange;
use vstd::slice::slice_to_vec;

verus! {

/// The bidirectional codec between raw object-modification file bytes and
/// the in-memory table. Decoding and encoding are each specified against the
/// wire model (`sd_table` and `se_table`), which the round-trip laws relate.
pub struct ObjectsTranslator;

impl ObjectsTranslator {
    /// The wire tag written for a modification type.
    fn type_to_int(mod_type: &ModificationType) -> (r: i32)
        ensures
            r == spec_type_int(*mod_type),
    {
        match mod_type {
            ModificationType::Int => 0,
            ModificationType::Real => 1,
            ModificationType::Unreal => 2,
            ModificationType::String => 3,
        }
    }

    /// The modification type a wire tag names; tags outside 0..=3 are a
    /// decode error, never a silent default.
    fn int_to_type(value: i32) -> (r: Result<ModificationType, TranslationError>)
        ensures
            match r {
                Ok(k) => spec_int_to_type(value) == Some(k),
                Err(_) => spec_int_to_type(value) is None,
            },
    {
        if value == 0 {
            Ok(ModificationType::Int)
        } else if value == 1 {
            Ok(ModificationType::Real)
        } else if value == 2 {
            Ok(ModificationType::Unreal)
        } else if value == 3 {
            Ok(ModificationType::String)
        } else {
            Err(TranslationError::new("Invalid modification type value"))
        }
    }

    /// Appends the wire bytes of one modification entry.
    fn write_modification(
        buffer: &mut HexBuffer,
        mod_item: &Modification,
        object_type: &ObjectType,
    )
        ensures
            final(buffer)@ == old(buffer)@ + se_mod(mod_item@, *object_type),
    {
        buffer.add_chars(&mod_item.id);
        buffer.add_int(Self::type_to_int(&mod_item.kind));
        if object_type.needs_variant_fields() {
            buffer.add_int(
                if mod_item.level != 0 {
                    mod_item.level
                } else {
                    mod_item.variation
                },
            );
            buffer.add_int(mod_item.column);
        }
        match &mod_item.value {
            ModificationValue::Int(v) => buffer.add_int(*v),
            ModificationValue::Real(v) => buffer.add_float(*v),
            ModificationValue::Unreal(v) => buffer.add_float(*v),
            ModificationValue::String(v) => buffer.add_string(v),
        }
        buffer.add_zero_padding(4);
        proof {
            assert(buffer@ =~= old(buffer)@ + se_mod(mod_item@, *object_type));
        }
    }

    /// Appends the wire bytes of one table. A custom-table key shorter than
    /// 9 bytes cannot be split into its id pair and is a hard encode error.
    fn generate_table_from_json(
        buffer: &mut HexBuffer,
        table_type: TableType,
        table_data: &crate::types::objects::ModMap,
        object_type: &ObjectType,
    ) -> (r: Result<(), TranslationError>)
        requires
            mods_fit(table_data@),
        ensures
            match r {
                Ok(()) => {
                    &&& final(buffer)@ == old(buffer)@ + se_records(
                        table_data@,
                        table_type is Original,
                        *object_type,
                    )
                    &&& table_type is Custom ==> forall|i: int|
                        0 <= i < table_data@.len() ==> (#[trigger] table_data@[i].0).len() >= 9
                },
                Err(_) => table_type is Custom && exists|i: int|
                    0 <= i < table_data@.len() && (#[trigger] table_data@[i].0).len() < 9,
            },
    {
        let is_original = match table_type {
            TableType::Original => true,
            TableType::Custom => false,
        };
        let ghost es = table_data@;
        let ghost ot = *object_type;
        let n = table_data.len();
        let mut rec: usize = 0;
        proof {
            assert(es.subrange(0, 0) =~= Seq::<(Seq<u8>, Seq<ModificationView>)>::empty());
            assert(buffer@ =~= old(buffer)@ + se_records(es.subrange(0, 0), is_original, ot));
        }
        while rec < n
            invariant
                rec <= n,
                n == es.len(),
                es == table_data@,
                mods_fit(es),
                is_original == (table_type is Original),
                ot == *object_type,
                buffer@ == old(buffer)@ + se_records(es.subrange(0, rec as int), is_original, ot),
                !is_original ==> forall|i: int| 0 <= i < rec ==> (#[trigger] es[i].0).len() >= 9,
            decreases n - rec,
        {
            let def_key = table_data.key_at(rec);
            let obj = table_data.mods_at(rec);
            let ghost pre = buffer@;
            let ghost key = es[rec as int].0;
            let ghost ms = es[rec as int].1;
            if is_original {
                buffer.add_chars(def_key);
                buffer.add_zero_padding(4);
            } else {
                if def_key.len() < 9 {
                    return Err(TranslationError::new("Custom table key shorter than 9 bytes"));
                }
                let original_part = slice_to_vec(slice_subrange(def_key.as_slice(), 5, 9));
                let custom_part = slice_to_vec(slice_subrange(def_key.as_slice(), 0, 4));
                buffer.add_chars(&original_part);
                buffer.add_chars(&custom_part);
            }
            proof {
                assert(mods_view(obj@) == ms && ms.len() <= i32::MAX);
            }
            buffer.add_int(obj.len() as i32);
            let ghost head = (if is_original {
                key + crate::buffer::ints::spec_zeros(4)
            } else {
                key.subrange(5, 9) + key.subrange(0, 4)
            }) + crate::buffer::ints::spec_enc_i32(ms.len() as i32);
            proof {
                assert(buffer@ =~= pre + head);
                assert(mods_view(obj@).subrange(0, 0) =~= Seq::<ModificationView>::empty());
                assert(buffer@ =~= pre + head + se_mods(mods_view(obj@).subrange(0, 0), ot));
            }
            let m_count = obj.len();
            let mut k: usize = 0;
            while k < m_count
                invariant
                    k <= m_count,
                    m_count == obj@.len(),
                    mods_view(obj@) == ms,
                    ot == *object_type,
                    buffer@ == pre + head + se_mods(ms.subrange(0, k as int), ot),
                decreases m_count - k,
            {
                let ghost before = buffer@;
                Self::write_modification(buffer, &obj[k], object_type);
                proof {
                    assert(obj[k as int]@ == ms[k as int]);
                    lemma_se_mods_snoc(ms.subrange(0, k as int), ms[k as int], ot);
                    assert(ms.subrange(0, k as int).push(ms[k as int]) =~= ms.subrange(
                        0,
                        k as int + 1,
                    ));
                }
                k = k + 1;
            }
            proof {
                assert(ms.subrange(0, m_count as int) =~= ms);
                assert(buffer@ =~= pre + se_record(key, ms, is_original, ot));
                lemma_se_records_snoc(es.subrange(0, rec as int), es[rec as int], is_original, ot);
                assert(es.subrange(0, rec as int).push(es[rec as int]) =~= es.subrange(
                    0,
                    rec as int + 1,
                ));
                assert(buffer@ =~= old(buffer)@ + se_records(
                    es.subrange(0, rec as int + 1),
                    is_original,
                    ot,
                ));
            }
            rec = rec + 1;
        }
        proof {
            assert(es.subrange(0, n as int) =~= es);
        }
        Ok(())
    }

    /// Encodes a table into the full wire byte buffer: version 2, the
    /// original table, then the custom table. Fails exactly when some custom
    /// key is shorter than the 9 bytes its id pair occupies; the buffer is
    /// otherwise exactly `se_table` of the table.
    pub fn json_to_war(object_type: ObjectType, json: ObjectModificationTable) -> (r: Result<
        Vec<u8>,
        TranslationError,
    >)
        requires
            counts_fit(json@),
        ensures
            match r {
                Ok(buf) => {
                    &&& buf@ == se_table(json@, object_type)
                    &&& forall|i: int|
                        0 <= i < json@.custom.len() ==> (#[trigger] json@.custom[i].0).len() >= 9
                },
                Err(_) => exists|i: int|
                    0 <= i < json@.custom.len() && (#[trigger] json@.custom[i].0).len() < 9,
            },
    {
        let mut buffer = HexBuffer::new();
        buffer.add_int(2);

        buffer.add_int(json.original.len() as i32);
        match Self::generate_table_from_json(
            &mut buffer,
            TableType::Original,
            &json.original,
            &object_type,
        ) {
            Ok(()) => {},
            Err(e) => {
                return Err(e);
            },
        }

        buffer.add_int(json.custom.len() as i32);
        match Self::generate_table_from_json(
            &mut buffer,
            TableType::Custom,
            &json.custom,
            &object_type,
        ) {
            Ok(()) => {},
            Err(e) => {
                return Err(e);
            },
        }

        proof {
            assert(buffer@ =~= se_table(json@, object_type));
        }
        Ok(buffer.get_buffer())
    }

    /// Decodes one modification entry at the reader's position, mirroring
    /// `sd_mod`: on success the decoded entry and new position are exactly
    /// the model's; on failure the model's decode fails too.
    fn read_modification(
        reader: &mut W3Buffer,
        is_original: bool,
        object_type: &ObjectType,
    ) -> (r: Result<Modification, TranslationError>)
        requires
            old(reader).wf(),
        ensures
            final(reader).wf(),
            final(reader).bytes() == old(reader).bytes(),
            match r {
                Ok(m) => sd_mod(
                    old(reader).bytes(),
                    old(reader).pos(),
                    is_original,
                    *object_type,
                ) matches Some(p) && m@ == p.0 && final(reader).pos() == p.1,
                Err(_) => sd_mod(
                    old(reader).bytes(),
                    old(reader).pos(),
                    is_original,
                    *object_type,
                ) is None,
            },
    {
        let ghost b = old(reader).bytes();
        let ghost i0 = old(reader).pos();
        let id = reader.read_chars(4);
        let tag = match reader.read_int() {
            Some(v) => v,
            None => {
                return Err(TranslationError::new("Unexpected end of buffer"));
            },
        };
        let kind = match Self::int_to_type(tag) {
            Ok(k) => k,
            Err(e) => {
                return Err(e);
            },
        };
        let (level, column) = if object_type.needs_variant_fields() {
            let lv = match reader.read_int() {
                Some(v) => v,
                None => {
                    return Err(TranslationError::new("Unexpected end of buffer"));
                },
            };
            let col = match reader.read_int() {
                Some(v) => v,
                None => {
                    return Err(TranslationError::new("Unexpected end of buffer"));
                },
            };
            (lv, col)
        } else {
            (0i32, 0i32)
        };
        let value = match kind {
            ModificationType::Int => match reader.read_int() {
                Some(v) => ModificationValue::Int(v),
                None => {
                    return Err(TranslationError::new("Unexpected end of buffer"));
                },
            },
            ModificationType::Real | ModificationType::Unreal => match reader.read_float() {
                Some(bits) => ModificationValue::Real(bits),
                None => {
                    return Err(TranslationError::new("Unexpected end of buffer"));
                },
            },
            ModificationType::String => ModificationValue::String(reader.read_string()),
        };
        if is_original {
            match reader.read_int() {
                Some(_) => {},
                None => {
                    return Err(TranslationError::new("Unexpected end of buffer"));
                },
            }
        } else {
            let _trailer = reader.read_chars(4);
        }
        let m = Modification { id, kind, value, level, column, variation: 0 };
        proof {
            let p = sd_mod(b, i0, is_original, *object_type).unwrap();
            assert(m@ == p.0);
        }
        Ok(m)
    }

    /// Decodes one record at the reader's position, mirroring `sd_record`:
    /// the two 4-byte ids, the count, and the modification entries. Returns
    /// the record's table key (for the custom table: `customId ':'
    /// originalId`) and its modification list.
    fn read_record(
        reader: &mut W3Buffer,
        is_original: bool,
        object_type: &ObjectType,
    ) -> (r: Result<(Vec<u8>, Vec<Modification>), TranslationError>)
        requires
            old(reader).wf(),
        ensures
            final(reader).wf(),
            final(reader).bytes() == old(reader).bytes(),
            match r {
                Ok(rec) => sd_record(
                    old(reader).bytes(),
                    old(reader).pos(),
                    is_original,
                    *object_type,
                ) matches Some(p) && rec.0@ == p.0.0 && mods_view(rec.1@) == p.0.1
                    && final(reader).pos() == p.1,
                Err(_) => sd_record(
                    old(reader).bytes(),
                    old(reader).pos(),
                    is_original,
                    *object_type,
                ) is None,
            },
    {
        let ghost b = old(reader).bytes();
        let ghost i0 = old(reader).pos();
        let ghost ot = *object_type;
        let original_id = reader.read_chars(4);
        let custom_id = reader.read_chars(4);
        let modification_count = match reader.read_int() {
            Some(v) => v,
            None => {
                return Err(TranslationError::new("Unexpected end of buffer"));
            },
        };
        let ghost pos_mods = reader.pos();
        let mut object_definition: Vec<Modification> = Vec::new();
        let mut mk: i32 = 0;
        let ghost mut mclean: bool = true;
        proof {
            assert(mods_view(object_definition@) =~= Seq::<ModificationView>::empty());
        }
        while mk < modification_count
            invariant
                reader.wf(),
                reader.bytes() == b,
                b == old(reader).bytes(),
                i0 == old(reader).pos(),
                ot == *object_type,
                0 <= mk,
                modification_count >= 0 ==> mk <= modification_count,
                modification_count < 0 ==> mk == 0,
                ({
                    let (oid, i1) = sd_chars(b, i0, 4);
                    let (cid, i2) = sd_chars(b, i1, 4);
                    oid == original_id@ && cid == custom_id@ && sd_int(b, i2) == Some(
                        (modification_count, pos_mods),
                    )
                }),
                sd_mods(
                    b,
                    pos_mods,
                    modification_count as int,
                    Seq::<ModificationView>::empty(),
                    true,
                    is_original,
                    ot,
                ) == sd_mods(
                    b,
                    reader.pos(),
                    modification_count - mk,
                    mods_view(object_definition@),
                    mclean,
                    is_original,
                    ot,
                ),
            decreases modification_count - mk,
        {
            let ghost pos_m = reader.pos();
            let ghost acc_m = mods_view(object_definition@);
            match Self::read_modification(reader, is_original, object_type) {
                Ok(m) => {
                    proof {
                        let p = sd_mod(b, pos_m, is_original, ot).unwrap();
                        mclean = mclean && p.2;
                        assert(mods_view(object_definition@.push(m)) =~= acc_m.push(m@));
                    }
                    object_definition.push(m);
                    mk = mk + 1;
                },
                Err(e) => {
                    return Err(e);
                },
            }
        }
        let key: Vec<u8> = if is_original {
            original_id
        } else {
            let mut key = custom_id;
            key.push(0x3A);
            let mut oid = original_id;
            key.append(&mut oid);
            key
        };
        proof {
            let rec = sd_record(b, i0, is_original, ot).unwrap();
            assert(rec.0.0 =~= key@);
        }
        Ok((key, object_definition))
    }

    /// Decodes one table section (count plus records) into the matching map
    /// of the table, mirroring `sd_section`.
    fn read_modification_table(
        reader: &mut W3Buffer,
        is_original: bool,
        result: &mut ObjectModificationTable,
        object_type: &ObjectType,
    ) -> (r: Result<(), TranslationError>)
        requires
            old(reader).wf(),
            old(result).wf(),
        ensures
            final(reader).wf(),
            final(result).wf(),
            final(reader).bytes() == old(reader).bytes(),
            ({
                let acc = if is_original {
                    old(result)@.original
                } else {
                    old(result)@.custom
                };
                let d = sd_section(
                    old(reader).bytes(),
                    old(reader).pos(),
                    acc,
                    is_original,
                    *object_type,
                );
                match r {
                    Ok(()) => d matches Some(p) && final(reader).pos() == p.1 && (if is_original {
                        final(result)@.original == p.0 && final(result)@.custom == old(
                            result,
                        )@.custom
                    } else {
                        final(result)@.custom == p.0 && final(result)@.original == old(
                            result,
                        )@.original
                    }),
                    Err(_) => d is None,
                }
            }),
    {
        let ghost b = old(reader).bytes();
        let ghost i0 = old(reader).pos();
        let ghost ot = *object_type;
        let ghost acc0: EntrySeq = if is_original {
            old(result)@.original
        } else {
            old(result)@.custom
        };
        let num_table_modifications = match reader.read_int() {
            Some(v) => v,
            None => {
                return Err(TranslationError::new("Unexpected end of buffer"));
            },
        };
        let ghost num = num_table_modifications;
        let mut processed: i32 = 0;
        let ghost mut clean: bool = true;
        while processed < num_table_modifications
            invariant
                reader.wf(),
                result.wf(),
                reader.bytes() == b,
                b == old(reader).bytes(),
                i0 == old(reader).pos(),
                ot == *object_type,
                num == num_table_modifications,
                acc0 == (if is_original {
                    old(result)@.original
                } else {
                    old(result)@.custom
                }),
                0 <= processed,
                num >= 0 ==> processed <= num,
                num < 0 ==> processed == 0,
                sd_int(b, i0) == Some((num, i0 + 4)),
                is_original ==> result@.custom == old(result)@.custom,
                !is_original ==> result@.original == old(result)@.original,
                sd_records(b, i0 + 4, num as int, acc0, true, is_original, ot) == sd_records(
                    b,
                    reader.pos(),
                    num - processed,
                    if is_original {
                        result@.original
                    } else {
                        result@.custom
                    },
                    clean,
                    is_original,
                    ot,
                ),
            decreases num_table_modifications - processed,
        {
            let ghost pos_rec = reader.pos();
            let ghost acc_cur: EntrySeq = if is_original {
                result@.original
            } else {
                result@.custom
            };
            match Self::read_record(reader, is_original, object_type) {
                Ok((key, object_definition)) => {
                    proof {
                        let rec = sd_record(b, pos_rec, is_original, ot).unwrap();
                        clean = clean && rec.2 && !entries_contain_key(acc_cur, key@);
                    }
                    if is_original {
                        result.original.insert(key, object_definition);
                    } else {
                        result.custom.insert(key, object_definition);
                    }
                    processed = processed + 1;
                },
                Err(e) => {
                    return Err(e);
                },
            }
        }
        Ok(())
    }

    /// Decodes a full file buffer into a table, mirroring `sd_table`: the
    /// version field is read and discarded, then the original and custom
    /// tables are read in order. Succeeds exactly when the model decode does,
    /// and returns exactly the model's table.
    pub fn war_to_json(object_type: ObjectType, buffer: Vec<u8>) -> (r: Result<
        ObjectModificationTable,
        TranslationError,
    >)
        ensures
            match r {
                Ok(t) => sd_table(buffer@, object_type) matches Some(p) && t@ == p.0 && t.wf(),
                Err(_) => sd_table(buffer@, object_type) is None,
            },
    {
        let ghost b = buffer@;
        let mut result = ObjectModificationTable::new();
        let mut reader = W3Buffer::new(buffer);
        let _file_version = match reader.read_int() {
            Some(v) => v,
            None => {
                return Err(TranslationError::new("Unexpected end of buffer"));
            },
        };
        match Self::read_modification_table(&mut reader, true, &mut result, &object_type) {
            Ok(()) => {},
            Err(e) => {
                return Err(e);
            },
        }
        match Self::read_modification_table(&mut reader, false, &mut result, &object_type) {
            Ok(()) => {},
            Err(e) => {
                return Err(e);
            },
        }
        Ok(result)
    }
}

} // verus!
