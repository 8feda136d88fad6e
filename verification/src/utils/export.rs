use crate::data::tooltip::SkillData;
use crate::data::tooltip::SkillDataView;
use crate::data::tooltip::SkillMap;
use crate::data::tooltip::SkillSeq;
use crate::utils::common::FieldType;
use crate::utils::common::TextType;
use crate::utils::common::StringExt;
use crate::utils::common::get_field_type;
use crate::utils::common::get_id;
use crate::utils::common::get_text_type;
use crate::utils::common::spec_get_field_type;
use crate::utils::common::spec_get_id;
use crate::utils::common::spec_text_type;
use crate::utils::parser::lines_from;
use crate::utils::parser::split_lines;
use crate::utils::text::alnum_char;
use crate::utils::text::contains_char;
use crate::utils::text::dec_digits;
use crate::utils::text::dec_str;
use crate::utils::text::ends_with;
use crate::utils::text::find_char;
use crate::utils::text::has_suffix;
use crate::utils::text::is_alnum;
use crate::utils::text::substring;
use crate::data::tooltip::strings_view;
use vstd::prelude::*;

verus! {

// ---------------------------------------------------------------------------
// Field name lines
// ---------------------------------------------------------------------------
/// The exported head line of a skill: a 4-alphanumeric id is bracketed
/// plainly; an id ending in `@` after three alphanumerics is bracketed in
/// quotes; anything else cannot be exported.
pub open spec fn spec_field_name(s: Seq<char>) -> Option<Seq<char>> {
    if s.len() >= 4 && is_alnum(s[0]) && is_alnum(s[1]) && is_alnum(s[2]) && is_alnum(s[3]) {
        Some(seq!['['] + s.subrange(0, 4) + seq![']'])
    } else if s.len() >= 4 && is_alnum(s[s.len() - 4]) && is_alnum(s[s.len() - 3]) && is_alnum(
        s[s.len() - 2],
    ) && s[s.len() - 1] == '@' {
        Some(seq!['[', '"'] + s.subrange(s.len() - 4, s.len() as int) + seq!['"', ']'])
    } else {
        None
    }
}

/// Renders a skill id as its exported head line.
fn output_field_name(key: &str) -> (r: Result<String, String>)
    ensures
        match r {
            Ok(s) => spec_field_name(key@) == Some(s@),
            Err(_) => spec_field_name(key@) is None,
        },
{
    proof {
        reveal_strlit("[");
        reveal_strlit("]");
        reveal_strlit("[\"");
        reveal_strlit("\"]");
    }
    let n = key.unicode_len();
    if n >= 4 && alnum_char(key.get_char(0)) && alnum_char(key.get_char(1)) && alnum_char(
        key.get_char(2),
    ) && alnum_char(key.get_char(3)) {
        let mut out = String::new();
        out.append("[");
        out.append(substring(key, 0, 4).as_str());
        out.append("]");
        proof {
            assert(out@ =~= spec_field_name(key@).unwrap());
        }
        Ok(out)
    } else if n >= 4 && alnum_char(key.get_char(n - 4)) && alnum_char(key.get_char(n - 3))
        && alnum_char(key.get_char(n - 2)) && key.get_char(n - 1) == '@' {
        let mut out = String::new();
        out.append("[\"");
        out.append(substring(key, n - 4, n).as_str());
        out.append("\"]");
        proof {
            assert(out@ =~= spec_field_name(key@).unwrap());
        }
        Ok(out)
    } else {
        Err(String::from_str("Unable to parse key"))
    }
}

// ---------------------------------------------------------------------------
// Field value rendering
// ---------------------------------------------------------------------------
/// The rendering of a one-value field: as a quoted single line, or, when the
/// value holds a newline, as a `[=[ ... ]=]` block. A list that does not hold
/// exactly one value cannot be rendered in this layout.
pub open spec fn spec_single_or_multi_line(name: Seq<char>, vs: Seq<Seq<char>>) -> Option<
    Seq<char>,
> {
    if vs.len() != 1 {
        None
    } else if contains_char(vs[0], '\n') {
        Some(name + " = [=["@ + seq!['\n'] + vs[0] + "]=]"@)
    } else {
        Some(name + " = \""@ + vs[0] + "\""@)
    }
}

/// Renders a one-value field.
pub fn output_single_or_multi_line(field_name: &str, value: &Vec<String>) -> (r: Result<
    String,
    String,
>)
    ensures
        match r {
            Ok(s) => spec_single_or_multi_line(field_name@, strings_view(value@)) == Some(s@),
            Err(_) => spec_single_or_multi_line(field_name@, strings_view(value@)) is None,
        },
{
    proof {
        reveal_strlit(" = [=[");
        reveal_strlit("]=]");
        reveal_strlit(" = \"");
        reveal_strlit("\"");
        reveal_strlit("\n");
    }
    if value.len() != 1 {
        return Err(String::from_str("singleline\u{4E0D}\u{5408}\u{6CD5}"));
    }
    let v = &value[0];
    let mut result = String::new();
    let has_newline = match find_char(v.as_str(), '\n') {
        Some(_) => true,
        None => false,
    };
    proof {
        assert(strings_view(value@)[0] == v@);
    }
    if has_newline {
        result.append(field_name);
        result.append(" = [=[");
        result.append("\n");
        result.append(v.as_str());
        result.append("]=]");
        proof {
            assert(result@ =~= field_name@ + " = [=["@ + seq!['\n'] + v@ + "]=]"@);
        }
    } else {
        result.append(field_name);
        result.append(" = \"");
        result.append(v.as_str());
        result.append("\"");
        proof {
            assert(result@ =~= field_name@ + " = \""@ + v@ + "\""@);
        }
    }
    Ok(result)
}

/// The quoted items of an array body, one per line, each with a trailing
/// comma.
pub open spec fn spec_array_items(vs: Seq<Seq<char>>, i: int) -> Seq<char>
    decreases vs.len() - i,
{
    if i < 0 || i >= vs.len() {
        Seq::<char>::empty()
    } else {
        seq!['"'] + vs[i] + "\","@ + seq!['\n'] + spec_array_items(vs, i + 1)
    }
}

/// The indexed quoted items of an array body, numbered from 1.
pub open spec fn spec_array_items_ext(vs: Seq<Seq<char>>, i: int) -> Seq<char>
    decreases vs.len() - i,
{
    if i < 0 || i >= vs.len() {
        Seq::<char>::empty()
    } else {
        dec_digits((i + 1) as nat) + " = \""@ + vs[i] + "\","@ + seq!['\n'] + spec_array_items_ext(
            vs,
            i + 1,
        )
    }
}

/// The block items of an array body, each bracketed by `[=[` and `]=],`.
pub open spec fn spec_block_items(vs: Seq<Seq<char>>, i: int) -> Seq<char>
    decreases vs.len() - i,
{
    if i < 0 || i >= vs.len() {
        Seq::<char>::empty()
    } else {
        "[=["@ + seq!['\n'] + vs[i] + "]=],"@ + seq!['\n'] + spec_block_items(vs, i + 1)
    }
}

/// The indexed block items of an array body, numbered from 1.
pub open spec fn spec_block_items_ext(vs: Seq<Seq<char>>, i: int) -> Seq<char>
    decreases vs.len() - i,
{
    if i < 0 || i >= vs.len() {
        Seq::<char>::empty()
    } else {
        dec_digits((i + 1) as nat) + " = [=["@ + seq!['\n'] + vs[i] + "]=],"@ + seq!['\n']
            + spec_block_items_ext(vs, i + 1)
    }
}

/// An array field: its opener line, its items, and the closing brace.
pub open spec fn spec_array_field(name: Seq<char>, items: Seq<char>) -> Seq<char> {
    name + " = {"@ + seq!['\n'] + items + seq!['}']
}

/// Renders an array of quoted values.
pub fn output_single_line_array(field_name: &str, value: &Vec<String>) -> (r: Result<
    String,
    String,
>)
    ensures
        r matches Ok(s) && s@ == spec_array_field(
            field_name@,
            spec_array_items(strings_view(value@), 0),
        ),
{
    proof {
        reveal_strlit(" = {");
        reveal_strlit("\n");
        reveal_strlit("\"");
        reveal_strlit("\",");
        reveal_strlit("}");
    }
    let ghost vs = strings_view(value@);
    let ghost head = field_name@ + " = {"@ + seq!['\n'];
    let mut result = String::new();
    result.append(field_name);
    result.append(" = {");
    result.append("\n");
    let ghost mut done: Seq<char> = Seq::<char>::empty();
    let mut i: usize = 0;
    proof {
        assert(result@ =~= head + done);
        assert(spec_array_items(vs, 0) =~= done + spec_array_items(vs, 0));
    }
    while i < value.len()
        invariant
            i <= value@.len(),
            vs == strings_view(value@),
            vs.len() == value@.len(),
            forall|k: int| 0 <= k < vs.len() ==> vs[k] == value@[k]@,
            head == field_name@ + " = {"@ + seq!['\n'],
            "\","@ =~= seq!['\"', ','],
            result@ == head + done,
            spec_array_items(vs, 0) == done + spec_array_items(vs, i as int),
        decreases value@.len() - i,
    {
        result.append("\"");
        result.append(value[i].as_str());
        result.append("\",");
        result.append("\n");
        let ghost item = seq!['\"'] + vs[i as int] + "\","@ + seq!['\n'];
        proof {
            reveal_strlit("\"");
            reveal_strlit("\",");
            reveal_strlit("\n");
            assert(result@ =~= head + (done + item));
            assert(spec_array_items(vs, i as int) == item + spec_array_items(vs, i + 1));
            assert(done + (item + spec_array_items(vs, i + 1)) =~= (done + item)
                + spec_array_items(vs, i + 1));
            done = done + item;
        }
        i = i + 1;
    }
    result.append("}");
    proof {
        assert(spec_array_items(vs, i as int) =~= Seq::<char>::empty());
        assert(done + Seq::<char>::empty() =~= done);
        assert(result@ =~= spec_array_field(field_name@, spec_array_items(vs, 0)));
    }
    Ok(result)
}

/// Renders an indexed array of quoted values, numbered from 1.
pub fn output_single_line_array_ext(field_name: &str, value: &Vec<String>) -> (r: Result<
    String,
    String,
>)
    ensures
        r matches Ok(s) && s@ == spec_array_field(
            field_name@,
            spec_array_items_ext(strings_view(value@), 0),
        ),
{
    proof {
        reveal_strlit(" = {");
        reveal_strlit("\n");
        reveal_strlit(" = \"");
        reveal_strlit("\",");
        reveal_strlit("}");
    }
    let ghost vs = strings_view(value@);
    let ghost head = field_name@ + " = {"@ + seq!['\n'];
    let mut result = String::new();
    result.append(field_name);
    result.append(" = {");
    result.append("\n");
    let ghost mut done: Seq<char> = Seq::<char>::empty();
    let mut i: usize = 0;
    proof {
        assert(result@ =~= head + done);
        assert(spec_array_items_ext(vs, 0) =~= done + spec_array_items_ext(vs, 0));
    }
    while i < value.len()
        invariant
            i <= value@.len(),
            vs == strings_view(value@),
            vs.len() == value@.len(),
            forall|k: int| 0 <= k < vs.len() ==> vs[k] == value@[k]@,
            head == field_name@ + " = {"@ + seq!['\n'],
            result@ == head + done,
            spec_array_items_ext(vs, 0) == done + spec_array_items_ext(vs, i as int),
        decreases value@.len() - i,
    {
        let index = dec_str(i + 1);
        result.append(index.as_str());
        result.append(" = \"");
        result.append(value[i].as_str());
        result.append("\",");
        result.append("\n");
        let ghost item = dec_digits((i + 1) as nat) + " = \""@ + vs[i as int] + "\","@
            + seq!['\n'];
        proof {
            reveal_strlit(" = \"");
            reveal_strlit("\",");
            reveal_strlit("\n");
            assert(result@ =~= head + (done + item));
            assert(spec_array_items_ext(vs, i as int) == item + spec_array_items_ext(vs, i + 1));
            assert(done + (item + spec_array_items_ext(vs, i + 1)) =~= (done + item)
                + spec_array_items_ext(vs, i + 1));
            done = done + item;
        }
        i = i + 1;
    }
    result.append("}");
    proof {
        assert(spec_array_items_ext(vs, i as int) =~= Seq::<char>::empty());
        assert(done + Seq::<char>::empty() =~= done);
        assert(result@ =~= spec_array_field(field_name@, spec_array_items_ext(vs, 0)));
    }
    Ok(result)
}

/// Renders an array of block values.
pub fn output_multi_line_array(field_name: &str, value: &Vec<String>) -> (r: Result<
    String,
    String,
>)
    ensures
        r matches Ok(s) && s@ == spec_array_field(
            field_name@,
            spec_block_items(strings_view(value@), 0),
        ),
{
    proof {
        reveal_strlit(" = {");
        reveal_strlit("\n");
        reveal_strlit("[=[");
        reveal_strlit("]=],");
        reveal_strlit("}");
    }
    let ghost vs = strings_view(value@);
    let ghost head = field_name@ + " = {"@ + seq!['\n'];
    let mut result = String::new();
    result.append(field_name);
    result.append(" = {");
    result.append("\n");
    let ghost mut done: Seq<char> = Seq::<char>::empty();
    let mut i: usize = 0;
    proof {
        assert(result@ =~= head + done);
        assert(spec_block_items(vs, 0) =~= done + spec_block_items(vs, 0));
    }
    while i < value.len()
        invariant
            i <= value@.len(),
            vs == strings_view(value@),
            vs.len() == value@.len(),
            forall|k: int| 0 <= k < vs.len() ==> vs[k] == value@[k]@,
            head == field_name@ + " = {"@ + seq!['\n'],
            result@ == head + done,
            spec_block_items(vs, 0) == done + spec_block_items(vs, i as int),
        decreases value@.len() - i,
    {
        result.append("[=[");
        result.append("\n");
        result.append(value[i].as_str());
        result.append("]=],");
        result.append("\n");
        let ghost item = "[=["@ + seq!['\n'] + vs[i as int] + "]=],"@ + seq!['\n'];
        proof {
            reveal_strlit("[=[");
            reveal_strlit("]=],");
            reveal_strlit("\n");
            assert(result@ =~= head + (done + item));
            assert(spec_block_items(vs, i as int) == item + spec_block_items(vs, i + 1));
            assert(done + (item + spec_block_items(vs, i + 1)) =~= (done + item)
                + spec_block_items(vs, i + 1));
            done = done + item;
        }
        i = i + 1;
    }
    result.append("}");
    proof {
        assert(spec_block_items(vs, i as int) =~= Seq::<char>::empty());
        assert(done + Seq::<char>::empty() =~= done);
        assert(result@ =~= spec_array_field(field_name@, spec_block_items(vs, 0)));
    }
    Ok(result)
}

/// Renders an indexed array of block values, numbered from 1.
pub fn output_multi_line_array_ext(field_name: &str, value: &Vec<String>) -> (r: Result<
    String,
    String,
>)
    ensures
        r matches Ok(s) && s@ == spec_array_field(
            field_name@,
            spec_block_items_ext(strings_view(value@), 0),
        ),
{
    proof {
        reveal_strlit(" = {");
        reveal_strlit("\n");
        reveal_strlit(" = [=[");
        reveal_strlit("]=],");
        reveal_strlit("}");
    }
    let ghost vs = strings_view(value@);
    let ghost head = field_name@ + " = {"@ + seq!['\n'];
    let mut result = String::new();
    result.append(field_name);
    result.append(" = {");
    result.append("\n");
    let ghost mut done: Seq<char> = Seq::<char>::empty();
    let mut i: usize = 0;
    proof {
        assert(result@ =~= head + done);
        assert(spec_block_items_ext(vs, 0) =~= done + spec_block_items_ext(vs, 0));
    }
    while i < value.len()
        invariant
            i <= value@.len(),
            vs == strings_view(value@),
            vs.len() == value@.len(),
            forall|k: int| 0 <= k < vs.len() ==> vs[k] == value@[k]@,
            head == field_name@ + " = {"@ + seq!['\n'],
            result@ == head + done,
            spec_block_items_ext(vs, 0) == done + spec_block_items_ext(vs, i as int),
        decreases value@.len() - i,
    {
        let index = dec_str(i + 1);
        result.append(index.as_str());
        result.append(" = [=[");
        result.append("\n");
        result.append(value[i].as_str());
        result.append("]=],");
        result.append("\n");
        let ghost item = dec_digits((i + 1) as nat) + " = [=["@ + seq!['\n'] + vs[i as int]
            + "]=],"@ + seq!['\n'];
        proof {
            reveal_strlit(" = [=[");
            reveal_strlit("]=],");
            reveal_strlit("\n");
            assert(result@ =~= head + (done + item));
            assert(spec_block_items_ext(vs, i as int) == item + spec_block_items_ext(vs, i + 1));
            assert(done + (item + spec_block_items_ext(vs, i + 1)) =~= (done + item)
                + spec_block_items_ext(vs, i + 1));
            done = done + item;
        }
        i = i + 1;
    }
    result.append("}");
    proof {
        assert(spec_block_items_ext(vs, i as int) =~= Seq::<char>::empty());
        assert(done + Seq::<char>::empty() =~= done);
        assert(result@ =~= spec_array_field(field_name@, spec_block_items_ext(vs, 0)));
    }
    Ok(result)
}

// ---------------------------------------------------------------------------
// Per-field dispatch
// ---------------------------------------------------------------------------
/// The rendering of one field's values in a given layout; an empty list
/// renders as nothing, and only the one-value layouts can fail.
pub open spec fn spec_output_field_value(
    field_type: FieldType,
    text_type: TextType,
    vs: Seq<Seq<char>>,
) -> Option<Seq<char>> {
    let name = spec_field_type_name(field_type);
    if vs.len() == 0 {
        Some(Seq::<char>::empty())
    } else {
        match text_type {
            TextType::SingleLine | TextType::MultiLine => spec_single_or_multi_line(name, vs),
            TextType::SingleLineArray => Some(spec_array_field(name, spec_array_items(vs, 0))),
            TextType::SingleLineArrayExt => Some(
                spec_array_field(name, spec_array_items_ext(vs, 0)),
            ),
            TextType::MultiLineArray => Some(spec_array_field(name, spec_block_items(vs, 0))),
            TextType::MultiLineArrayExt => Some(
                spec_array_field(name, spec_block_items_ext(vs, 0)),
            ),
        }
    }
}

/// The name a field type is written as.
pub open spec fn spec_field_type_name(field_type: FieldType) -> Seq<char> {
    match field_type {
        FieldType::Researchtip => "Researchtip"@,
        FieldType::Researchubertip => "Researchubertip"@,
        FieldType::Tip => "Tip"@,
        FieldType::Ubertip => "Ubertip"@,
    }
}

/// Renders one field's values in a layout.
pub fn output_field_value(
    field_type: &FieldType,
    text_type: &TextType,
    value: &Vec<String>,
) -> (r: Result<String, String>)
    ensures
        match r {
            Ok(s) => spec_output_field_value(*field_type, *text_type, strings_view(value@))
                == Some(s@),
            Err(_) => spec_output_field_value(*field_type, *text_type, strings_view(value@))
                is None,
        },
{
    if value.len() == 0 {
        return Ok(String::new());
    }
    let field_name = field_type.to_str();
    match text_type {
        TextType::SingleLine | TextType::MultiLine => output_single_or_multi_line(
            field_name,
            value,
        ),
        TextType::SingleLineArray => output_single_line_array(field_name, value),
        TextType::SingleLineArrayExt => output_single_line_array_ext(field_name, value),
        TextType::MultiLineArray => output_multi_line_array(field_name, value),
        TextType::MultiLineArrayExt => output_multi_line_array_ext(field_name, value),
    }
}

/// The list a field type selects from a skill.
pub open spec fn spec_field_values(d: SkillDataView, field_type: FieldType) -> Seq<Seq<char>> {
    match field_type {
        FieldType::Researchtip => d.researchtip,
        FieldType::Researchubertip => d.researchubertip,
        FieldType::Tip => d.tip,
        FieldType::Ubertip => d.ubertip,
    }
}

/// Renders the field of a skill a field type selects, in a layout.
pub fn get_field_value(
    field_type: &FieldType,
    text_type: &TextType,
    data: &SkillData,
) -> (r: Result<String, String>)
    ensures
        match r {
            Ok(s) => spec_output_field_value(
                *field_type,
                *text_type,
                spec_field_values(data@, *field_type),
            ) == Some(s@),
            Err(_) => spec_output_field_value(
                *field_type,
                *text_type,
                spec_field_values(data@, *field_type),
            ) is None,
        },
{
    match field_type {
        FieldType::Researchtip => output_field_value(field_type, text_type, &data.researchtip),
        FieldType::Researchubertip => output_field_value(
            field_type,
            text_type,
            &data.researchubertip,
        ),
        FieldType::Tip => output_field_value(field_type, text_type, &data.tip),
        FieldType::Ubertip => output_field_value(field_type, text_type, &data.ubertip),
    }
}

// ---------------------------------------------------------------------------
// Whole-file export of the translations
// ---------------------------------------------------------------------------
/// The rendering of one field within a skill's exported section: nothing when
/// the field has no recorded layout or renders empty, else the rendered value
/// and a newline.
pub open spec fn spec_field_section(d: SkillDataView, field_type: FieldType) -> Option<Seq<char>> {
    match d.text_type_map.spec_get(field_type) {
        None => Some(Seq::<char>::empty()),
        Some(tt) => match spec_output_field_value(field_type, tt, spec_field_values(d, field_type)) {
            None => None,
            Some(v) => Some(
                if v.len() > 0 {
                    v + seq!['\n']
                } else {
                    Seq::<char>::empty()
                },
            ),
        },
    }
}

/// The exported section of one skill: its head line, the four fields in their
/// fixed order, and a blank separator line.
pub open spec fn spec_skill_section(key: Seq<char>, d: SkillDataView) -> Option<Seq<char>> {
    match spec_field_name(key) {
        None => None,
        Some(name) => match (
            spec_field_section(d, FieldType::Researchtip),
            spec_field_section(d, FieldType::Researchubertip),
            spec_field_section(d, FieldType::Tip),
            spec_field_section(d, FieldType::Ubertip),
        ) {
            (Some(f1), Some(f2), Some(f3), Some(f4)) => Some(
                name + seq!['\n'] + f1 + f2 + f3 + f4 + seq!['\n'],
            ),
            _ => None,
        },
    }
}

/// The whole export: each skill's section, in map (ascending id) order.
pub open spec fn spec_output_translated(es: SkillSeq, i: int) -> Option<Seq<char>>
    decreases es.len() - i,
{
    if i < 0 || i >= es.len() {
        Some(Seq::<char>::empty())
    } else {
        match spec_skill_section(es[i].0, es[i].1) {
            None => None,
            Some(sec) => match spec_output_translated(es, i + 1) {
                None => None,
                Some(rest) => Some(sec + rest),
            },
        }
    }
}

/// Renders one field within a skill's section onto the output.
fn output_field_section(output: &mut String, field_type: FieldType, data: &SkillData) -> (r:
    Result<(), String>)
    ensures
        match r {
            Ok(()) => spec_field_section(data@, field_type) matches Some(f) && final(output)@
                == old(output)@ + f,
            Err(_) => spec_field_section(data@, field_type) is None,
        },
{
    match data.text_type_map.get(&field_type) {
        None => {
            proof {
                assert(output@ =~= old(output)@ + Seq::<char>::empty());
            }
            Ok(())
        },
        Some(tt) => match get_field_value(&field_type, &tt, data) {
            Err(e) => Err(e),
            Ok(v) => {
                if v.as_str().unicode_len() > 0 {
                    output.push_line(v.as_str());
                } else {
                    proof {
                        assert(output@ =~= old(output)@ + Seq::<char>::empty());
                    }
                }
                Ok(())
            },
        },
    }
}

/// Renders every skill of the map as its exported section, in ascending id
/// order: the bracketed id line, each recorded field, and a blank line.
#[verifier::rlimit(60)]
pub fn output_translated(skills: &SkillMap) -> (r: Result<String, String>)
    ensures
        match r {
            Ok(s) => spec_output_translated(skills@, 0) == Some(s@),
            Err(_) => spec_output_translated(skills@, 0) is None,
        },
{
    proof {
        reveal_strlit("
");
    }
    let ghost es = skills@;
    let mut output = String::new();
    let ghost mut done: Seq<char> = Seq::<char>::empty();
    let mut i: usize = 0;
    let n = skills.len();
    while i < n
        invariant
            i <= n,
            n == es.len(),
            es == skills@,
            output@ == done,
            spec_output_translated(es, 0) matches Some(whole) ==> (spec_output_translated(
                es,
                i as int,
            ) matches Some(rest) && whole == done + rest),
            spec_output_translated(es, 0) is None ==> spec_output_translated(es, i as int) is None,
        decreases n - i,
    {
        let key = skills.key_at(i);
        let data = skills.data_at(i);
        let field_name = match output_field_name(key.as_str()) {
            Ok(f) => f,
            Err(e) => {
                return Err(e);
            },
        };
        let ghost sec_start = output@;
        output.push_line(field_name.as_str());
        match output_field_section(&mut output, FieldType::Researchtip, data) {
            Ok(()) => {},
            Err(e) => {
                return Err(e);
            },
        }
        match output_field_section(&mut output, FieldType::Researchubertip, data) {
            Ok(()) => {},
            Err(e) => {
                return Err(e);
            },
        }
        match output_field_section(&mut output, FieldType::Tip, data) {
            Ok(()) => {},
            Err(e) => {
                return Err(e);
            },
        }
        match output_field_section(&mut output, FieldType::Ubertip, data) {
            Ok(()) => {},
            Err(e) => {
                return Err(e);
            },
        }
        output.append("
");
        proof {
            reveal_strlit("\n");
            let sec = spec_skill_section(es[i as int].0, es[i as int].1).unwrap();
            assert(output@ =~= done + sec);
            done = output@;
        }
        i = i + 1;
    }
    proof {
        assert(spec_output_translated(es, i as int) == Some(Seq::<char>::empty()));
        assert(done + Seq::<char>::empty() =~= done);
    }
    Ok(output)
}

// ---------------------------------------------------------------------------
// Re-export against a source file
// ---------------------------------------------------------------------------
/// The position after a multi-line block: past the first line ending in
/// `]=]`, or the end of input.
pub open spec fn spec_skip_to_close(ls: Seq<Seq<char>>, i: int) -> int
    decreases ls.len() - i,
{
    if i < 0 {
        i
    } else if i >= ls.len() {
        ls.len() as int
    } else if ends_with(ls[i], "]=]"@) {
        i + 1
    } else {
        spec_skip_to_close(ls, i + 1)
    }
}

/// The position after an array block: past the first line holding a `}`, or
/// the end of input.
pub open spec fn spec_skip_to_brace(ls: Seq<Seq<char>>, i: int) -> int
    decreases ls.len() - i,
{
    if i < 0 {
        i
    } else if i >= ls.len() {
        ls.len() as int
    } else if contains_char(ls[i], '}') {
        i + 1
    } else {
        spec_skip_to_brace(ls, i + 1)
    }
}

/// The lines a source field's body occupies, depending on its layout.
pub open spec fn spec_skip_lines(tt: TextType, ls: Seq<Seq<char>>, i: int) -> int {
    match tt {
        TextType::SingleLine => i,
        TextType::MultiLine => spec_skip_to_close(ls, i),
        TextType::SingleLineArray | TextType::SingleLineArrayExt | TextType::MultiLineArray
            | TextType::MultiLineArrayExt => spec_skip_to_brace(ls, i),
    }
}

/// The skipped span stays within the lines.
pub proof fn lemma_skip_lines_pos(tt: TextType, ls: Seq<Seq<char>>, i: int)
    requires
        0 <= i <= ls.len(),
    ensures
        i <= spec_skip_lines(tt, ls, i) <= ls.len(),
{
    lemma_skip_to_close_pos(ls, i);
    lemma_skip_to_brace_pos(ls, i);
}

proof fn lemma_skip_to_close_pos(ls: Seq<Seq<char>>, i: int)
    requires
        0 <= i <= ls.len(),
    ensures
        i <= spec_skip_to_close(ls, i) <= ls.len(),
    decreases ls.len() - i,
{
    if i < ls.len() && !ends_with(ls[i], "]=]"@) {
        lemma_skip_to_close_pos(ls, i + 1);
    }
}

proof fn lemma_skip_to_brace_pos(ls: Seq<Seq<char>>, i: int)
    requires
        0 <= i <= ls.len(),
    ensures
        i <= spec_skip_to_brace(ls, i) <= ls.len(),
    decreases ls.len() - i,
{
    if i < ls.len() && !contains_char(ls[i], '}') {
        lemma_skip_to_brace_pos(ls, i + 1);
    }
}

/// Advances past a source field's body, which the export replaces.
pub fn skip_lines(text_type: &TextType, lines: &Vec<String>, pos: &mut usize)
    requires
        *old(pos) <= lines@.len(),
    ensures
        *final(pos) == spec_skip_lines(*text_type, strings_view(lines@), *old(pos) as int),
        *old(pos) <= *final(pos) <= lines@.len(),
{
    proof {
        reveal_strlit("]=]");
    }
    let ghost ls = strings_view(lines@);
    match text_type {
        TextType::SingleLine => {},
        TextType::MultiLine => {
            while *pos < lines.len()
                invariant
                    *old(pos) <= *pos <= lines@.len(),
                    ls == strings_view(lines@),
                    ls.len() == lines@.len(),
                    *text_type is MultiLine,
                    "]=]"@ =~= seq![']', '=', ']'],
                    forall|k: int| 0 <= k < ls.len() ==> ls[k] == lines@[k]@,
                    spec_skip_to_close(ls, *old(pos) as int) == spec_skip_to_close(
                        ls,
                        *pos as int,
                    ),
                decreases lines@.len() - *pos,
            {
                let done = has_suffix(lines[*pos].as_str(), "]=]");
                *pos = *pos + 1;
                if done {
                    return ;
                }
            }
        },
        TextType::SingleLineArray | TextType::SingleLineArrayExt | TextType::MultiLineArray
            | TextType::MultiLineArrayExt => {
            while *pos < lines.len()
                invariant
                    *old(pos) <= *pos <= lines@.len(),
                    ls == strings_view(lines@),
                    ls.len() == lines@.len(),
                    !(*text_type is SingleLine) && !(*text_type is MultiLine),
                    forall|k: int| 0 <= k < ls.len() ==> ls[k] == lines@[k]@,
                    spec_skip_to_brace(ls, *old(pos) as int) == spec_skip_to_brace(
                        ls,
                        *pos as int,
                    ),
                decreases lines@.len() - *pos,
            {
                let found = match find_char(lines[*pos].as_str(), '}') {
                    Some(_) => true,
                    None => false,
                };
                *pos = *pos + 1;
                if found {
                    return ;
                }
            }
        },
    }
}

/// The first entry a key matches, scanning in map order.
pub open spec fn skills_lookup(es: SkillSeq, k: Seq<char>) -> Option<SkillDataView>
    decreases es.len(),
{
    if es.len() == 0 {
        None
    } else if es[0].0 == k {
        Some(es[0].1)
    } else {
        skills_lookup(es.drop_first(), k)
    }
}

/// A key found at any position is what the scan finds, and a key at no
/// position is not found.
pub proof fn lemma_skills_lookup(es: SkillSeq, k: Seq<char>, w: int)
    requires
        crate::data::tooltip::skills_sorted(es),
        0 <= w < es.len(),
        es[w].0 == k,
    ensures
        skills_lookup(es, k) == Some(es[w].1),
    decreases es.len(),
{
    if w == 0 {
    } else {
        crate::data::tooltip::lemma_lex_trichotomy(es[0].0, k);
        assert(crate::data::tooltip::lex_lt(es[0].0, es[w].0));
        let t = es.drop_first();
        assert(forall|j: int| 0 <= j < t.len() ==> t[j] == es[j + 1]);
        lemma_skills_lookup(t, k, w - 1);
    }
}

/// An absent key is never found.
pub proof fn lemma_skills_lookup_none(es: SkillSeq, k: Seq<char>)
    requires
        forall|j: int| 0 <= j < es.len() ==> (#[trigger] es[j]).0 != k,
    ensures
        skills_lookup(es, k) is None,
    decreases es.len(),
{
    if es.len() > 0 {
        let t = es.drop_first();
        assert(forall|j: int| 0 <= j < t.len() ==> t[j] == es[j + 1]);
        lemma_skills_lookup_none(t, k);
    }
}

/// The re-export of a source text against the translated skills: lines pass
/// through unchanged, except that a recognized field line of a translated
/// skill (tracked by the last section id line seen) is replaced — together
/// with its body — by the translated field's rendering. Fails when a source
/// field's layout cannot be classified, or a translated field cannot be
/// rendered.
pub open spec fn spec_output_files(
    skills: SkillSeq,
    ls: Seq<Seq<char>>,
    i: int,
    cur_id: Seq<char>,
) -> Option<Seq<char>>
    decreases ls.len() - i,
    via spec_output_files_decreases
{
    if i < 0 || i >= ls.len() {
        Some(Seq::<char>::empty())
    } else {
        let line = ls[i];
        let cid = match spec_get_id(line) {
            Some(id) => id,
            None => cur_id,
        };
        let translated = match spec_get_field_type(line) {
            None => None,
            Some(ft) => match skills_lookup(skills, cid) {
                None => None,
                Some(d) => match d.text_type_map.spec_get(ft) {
                    None => None,
                    Some(tt) => Some((ft, d, tt)),
                },
            },
        };
        match translated {
            None => match spec_output_files(skills, ls, i + 1, cid) {
                None => None,
                Some(r) => Some(line + seq!['\n'] + r),
            },
            Some((ft, d, tt)) => {
                let next = if i + 1 < ls.len() {
                    Some(ls[i + 1])
                } else {
                    None
                };
                match spec_text_type(line, next) {
                    None => None,
                    Some(src_tt) => {
                        let j = spec_skip_lines(src_tt, ls, i + 1);
                        match spec_output_field_value(ft, tt, spec_field_values(d, ft)) {
                            None => None,
                            Some(v) => match spec_output_files(skills, ls, j, cid) {
                                None => None,
                                Some(r) => Some(v + seq!['\n'] + r),
                            },
                        }
                    },
                }
            },
        }
    }
}

#[via_fn]
proof fn spec_output_files_decreases(
    skills: SkillSeq,
    ls: Seq<Seq<char>>,
    i: int,
    cur_id: Seq<char>,
) {
    if 0 <= i < ls.len() {
        assert forall|tt: TextType| i + 1 <= #[trigger] spec_skip_lines(tt, ls, i + 1)
            <= ls.len() by {
            lemma_skip_lines_pos(tt, ls, i + 1);
        }
    }
}

/// Replays a source tooltip text, replacing each field of each translated
/// skill with its translated rendering, exactly as `spec_output_files`.
#[verifier::rlimit(100)]
pub fn output_files(translation_skills: &SkillMap, source: &str) -> (r: Result<String, String>)
    requires
        translation_skills.wf(),
    ensures
        ({
            let d = spec_output_files(
                translation_skills@,
                lines_from(source@, 0),
                0,
                Seq::<char>::empty(),
            );
            match r {
                Ok(s) => d == Some(s@),
                Err(_) => d is None,
            }
        }),
{
    proof {
        reveal_strlit("\n");
    }
    let lines = split_lines(source);
    let ghost ls = strings_view(lines@);
    let ghost sk = translation_skills@;
    let mut output = String::new();
    let mut current_id = String::new();
    let ghost mut done: Seq<char> = Seq::<char>::empty();
    let mut pos: usize = 0;
    while pos < lines.len()
        invariant
            pos <= lines@.len(),
            ls == strings_view(lines@),
            ls == lines_from(source@, 0),
            ls.len() == lines@.len(),
            sk == translation_skills@,
            translation_skills.wf(),
            forall|k: int| 0 <= k < ls.len() ==> ls[k] == lines@[k]@,
            output@ == done,
            spec_output_files(sk, ls, 0, Seq::<char>::empty()) matches Some(whole) ==> (
            spec_output_files(sk, ls, pos as int, current_id@) matches Some(rest) && whole == done
                + rest),
            spec_output_files(sk, ls, 0, Seq::<char>::empty()) is None ==> spec_output_files(
                sk,
                ls,
                pos as int,
                current_id@,
            ) is None,
        decreases lines@.len() - pos,
    {
        proof {
            reveal_strlit("\n");
        }
        let ghost pos0 = pos as int;
        match get_id(lines[pos].as_str()) {
            Some(id) => {
                current_id = id;
            },
            None => {},
        }
        let mut replaced = false;
        match get_field_type(lines[pos].as_str()) {
            None => {},
            Some(ft) => {
                match translation_skills.get(current_id.as_str()) {
                    None => {
                        proof {
                            lemma_skills_lookup_none(sk, current_id@);
                        }
                    },
                    Some(data) => {
                        proof {
                            let w = choose|w: int|
                                0 <= w < sk.len() && sk[w].0 == current_id@ && sk[w].1 == data@;
                            lemma_skills_lookup(sk, current_id@, w);
                        }
                        match data.text_type_map.get(&ft) {
                            None => {},
                            Some(tt) => {
                                let next_is: bool = pos + 1 < lines.len();
                                let src_tt_opt: Option<TextType> = if next_is {
                                    get_text_type(
                                        lines[pos].as_str(),
                                        Some(lines[pos + 1].as_str()),
                                    )
                                } else {
                                    get_text_type(lines[pos].as_str(), None)
                                };
                                match src_tt_opt {
                                    None => {
                                        return Err(
                                            String::from_str(
                                                "Not found text type form source skill",
                                            ),
                                        );
                                    },
                                    Some(src_tt) => {
                                        proof {
                                            lemma_skip_lines_pos(src_tt, ls, pos0 + 1);
                                        }
                                        let field_value = match get_field_value(&ft, &tt, data) {
                                            Ok(v) => v,
                                            Err(e) => {
                                                return Err(e);
                                            },
                                        };
                                        pos = pos + 1;
                                        skip_lines(&src_tt, &lines, &mut pos);
                                        output.push_line(field_value.as_str());
                                        replaced = true;
                                        proof {
                                            done = output@;
                                        }
                                    },
                                }
                            },
                        }
                    },
                }
            },
        }
        if !replaced {
            output.push_line(lines[pos].as_str());
            pos = pos + 1;
            proof {
                done = output@;
            }
        }
    }
    Ok(output)
}

} // verus!