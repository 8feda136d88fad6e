use crate::data::tooltip::SkillData;
use crate::utils::text::contains_char;
use crate::utils::text::is_alnum;
use crate::utils::text::alnum_char;
use crate::utils::text::find_char;
use crate::utils::text::rscan_wspace;
use crate::utils::text::rskip_wspace;
use crate::utils::text::scan_digits;
use crate::utils::text::scan_letters;
use crate::utils::text::scan_wspace;
use crate::utils::text::skip_digits;
use crate::utils::text::skip_letters;
use crate::utils::text::skip_wspace;
use crate::utils::text::str_eq;
use crate::utils::text::substring;
use vstd::prelude::*;

verus! {

/// Appending a line of text plus one newline character.
pub trait StringExt: View<V = Seq<char>> {
    fn push_line(&mut self, line: &str)
        ensures
            final(self)@ == old(self)@ + line@ + seq!['\n'],
    ;
}

impl StringExt for String {
    fn push_line(&mut self, line: &str) {
        proof {
            reveal_strlit("\n");
        }
        self.append(line);
        self.append("\n");
    }
}

/// The four tooltip fields a skill can carry, in their fixed order.
#[derive(Clone, Copy, Debug, Hash, PartialEq, Eq, Structural)]
pub enum FieldType {
    Researchtip,
    Researchubertip,
    Tip,
    Ubertip,
}

impl Default for FieldType {
    fn default() -> (r: FieldType)
        ensures
            r == FieldType::Researchtip,
    {
        FieldType::Researchtip
    }
}

/// The field type a name spells, if any.
pub open spec fn spec_field_type_of(name: Seq<char>) -> Option<FieldType> {
    if name == "Researchtip"@ {
        Some(FieldType::Researchtip)
    } else if name == "Researchubertip"@ {
        Some(FieldType::Researchubertip)
    } else if name == "Tip"@ {
        Some(FieldType::Tip)
    } else if name == "Ubertip"@ {
        Some(FieldType::Ubertip)
    } else {
        None
    }
}

impl FieldType {
    /// Parses one of the four field names, exactly.
    pub fn from_str(s: &str) -> (r: Option<FieldType>)
        ensures
            r == spec_field_type_of(s@),
    {
        if str_eq(s, "Researchtip") {
            Some(FieldType::Researchtip)
        } else if str_eq(s, "Researchubertip") {
            Some(FieldType::Researchubertip)
        } else if str_eq(s, "Tip") {
            Some(FieldType::Tip)
        } else if str_eq(s, "Ubertip") {
            Some(FieldType::Ubertip)
        } else {
            None
        }
    }

    /// The field's name.
    pub fn to_str(&self) -> (r: &'static str)
        ensures
            spec_field_type_of(r@) == Some(*self),
            match *self {
                FieldType::Researchtip => r@ == "Researchtip"@,
                FieldType::Researchubertip => r@ == "Researchubertip"@,
                FieldType::Tip => r@ == "Tip"@,
                FieldType::Ubertip => r@ == "Ubertip"@,
            },
    {
        proof {
            reveal_strlit("Researchtip");
            reveal_strlit("Researchubertip");
            reveal_strlit("Tip");
            reveal_strlit("Ubertip");
            assert(("Researchtip"@).len() == 11 && ("Researchubertip"@).len() == 15 && ("Tip"@).len()
                == 3 && ("Ubertip"@).len() == 7);
        }
        match self {
            FieldType::Researchtip => "Researchtip",
            FieldType::Researchubertip => "Researchubertip",
            FieldType::Tip => "Tip",
            FieldType::Ubertip => "Ubertip",
        }
    }
}

/// The six line layouts a tooltip value can be written in.
#[derive(Clone, Copy, Debug, PartialEq, Eq, Structural)]
pub enum TextType {
    SingleLine,
    MultiLine,
    SingleLineArray,
    SingleLineArrayExt,
    MultiLineArray,
    MultiLineArrayExt,
}

impl Default for TextType {
    fn default() -> (r: TextType)
        ensures
            r == TextType::SingleLine,
    {
        TextType::SingleLine
    }
}

// ---------------------------------------------------------------------------
// The line grammar
// ---------------------------------------------------------------------------
/// A section id line: `[` then four alphanumerics, or three alphanumerics and
/// `@`, then `]` — six characters exactly. The id is the inner four.
pub open spec fn spec_get_id(s: Seq<char>) -> Option<Seq<char>> {
    if s.len() == 6 && s[0] == '[' && s[5] == ']' && is_alnum(s[1]) && is_alnum(s[2]) && is_alnum(
        s[3],
    ) && (is_alnum(s[4]) || s[4] == '@') {
        Some(s.subrange(1, 5))
    } else {
        None
    }
}

/// Recognizes a section id line and returns the id inside the brackets.
pub fn get_id(key: &str) -> (r: Option<String>)
    ensures
        match r {
            Some(id) => spec_get_id(key@) == Some(id@),
            None => spec_get_id(key@) is None,
        },
{
    if key.unicode_len() != 6 {
        return None;
    }
    if key.get_char(0) != '[' || key.get_char(5) != ']' {
        return None;
    }
    if !alnum_char(key.get_char(1)) || !alnum_char(key.get_char(2)) || !alnum_char(
        key.get_char(3),
    ) {
        return None;
    }
    if !alnum_char(key.get_char(4)) && key.get_char(4) != '@' {
        return None;
    }
    Some(substring(key, 1, 5))
}

/// A single-line field: letters, optional spaces, `=`, optional spaces, then
/// a double-quoted value closing at the end of the line.
pub open spec fn spec_is_single_line(s: Seq<char>) -> bool {
    let a = scan_letters(s, 0);
    let b = scan_wspace(s, a);
    a >= 1 && b < s.len() && s[b] == '=' && {
        let c = scan_wspace(s, b + 1);
        c < s.len() && s[c] == '"' && s.len() >= c + 2 && s[s.len() - 1] == '"'
    }
}

/// The quoted value of a single-line field.
pub open spec fn spec_single_line_value(s: Seq<char>) -> Seq<char> {
    let a = scan_letters(s, 0);
    let b = scan_wspace(s, a);
    let c = scan_wspace(s, b + 1);
    s.subrange(c + 1, s.len() - 1)
}

/// A multi-line field opener: letters, optional spaces, `=`, optional spaces,
/// then `[=[` ending the line.
pub open spec fn spec_is_multi_line_open(s: Seq<char>) -> bool {
    let a = scan_letters(s, 0);
    let b = scan_wspace(s, a);
    a >= 1 && b < s.len() && s[b] == '=' && {
        let c = scan_wspace(s, b + 1);
        c + 3 == s.len() && s[c] == '[' && s[c + 1] == '=' && s[c + 2] == '['
    }
}

/// An array opener: a line ending in `{` preceded (after optional spaces) by
/// `=`.
pub open spec fn spec_is_array_open(s: Seq<char>) -> bool {
    s.len() >= 2 && s[s.len() - 1] == '{' && {
        let g = rscan_wspace(s, s.len() - 1);
        g > 0 && s[g - 1] == '='
    }
}

/// An array element written as a quoted value with a trailing comma.
pub open spec fn spec_is_single_line_array_item(s: Seq<char>) -> bool {
    s.len() >= 3 && s[0] == '"' && s[s.len() - 2] == '"' && s[s.len() - 1] == ','
}

/// The value of a quoted array element.
pub open spec fn spec_single_line_array_value(s: Seq<char>) -> Seq<char> {
    s.subrange(1, s.len() - 2)
}

/// An indexed array element: digits, optional spaces, `=`, optional spaces,
/// then a quoted value with a trailing comma.
pub open spec fn spec_is_single_line_array_ext_item(s: Seq<char>) -> bool {
    let d = scan_digits(s, 0);
    let e = scan_wspace(s, d);
    d >= 1 && e < s.len() && s[e] == '=' && {
        let f = scan_wspace(s, e + 1);
        f < s.len() && s[f] == '"' && s.len() >= f + 3 && s[s.len() - 2] == '"' && s[s.len() - 1]
            == ','
    }
}

/// The value of an indexed quoted array element.
pub open spec fn spec_single_line_array_ext_value(s: Seq<char>) -> Seq<char> {
    let d = scan_digits(s, 0);
    let e = scan_wspace(s, d);
    let f = scan_wspace(s, e + 1);
    s.subrange(f + 1, s.len() - 2)
}

/// A block opener line holding exactly `[=[`.
pub open spec fn spec_is_block_open(s: Seq<char>) -> bool {
    s.len() == 3 && s[0] == '[' && s[1] == '=' && s[2] == '['
}

/// An indexed block opener: digits, optional spaces, `=`, optional spaces,
/// then `[=[` ending the line.
pub open spec fn spec_is_multi_line_array_ext_open(s: Seq<char>) -> bool {
    let d = scan_digits(s, 0);
    let e = scan_wspace(s, d);
    d >= 1 && e < s.len() && s[e] == '=' && {
        let c = scan_wspace(s, e + 1);
        c + 3 == s.len() && s[c] == '[' && s[c + 1] == '=' && s[c + 2] == '['
    }
}

/// Classification of a line that is not an array opener.
pub open spec fn spec_parse_type_from_single(s: Seq<char>) -> Option<TextType> {
    if spec_is_single_line(s) {
        Some(TextType::SingleLine)
    } else if spec_is_multi_line_open(s) {
        Some(TextType::MultiLine)
    } else {
        None
    }
}

/// Classification of the first line after an array opener.
pub open spec fn spec_parse_type_from_multi(s: Seq<char>) -> Option<TextType> {
    if spec_is_single_line_array_item(s) {
        Some(TextType::SingleLineArray)
    } else if spec_is_single_line_array_ext_item(s) {
        Some(TextType::SingleLineArrayExt)
    } else if spec_is_block_open(s) {
        Some(TextType::MultiLineArray)
    } else if spec_is_multi_line_array_ext_open(s) {
        Some(TextType::MultiLineArrayExt)
    } else {
        None
    }
}

/// Classification of a field line: an array opener is classified by the line
/// after it, any other line by itself.
pub open spec fn spec_text_type(input: Seq<char>, next: Option<Seq<char>>) -> Option<TextType> {
    if spec_is_array_open(input) {
        match next {
            Some(n) => spec_parse_type_from_multi(n),
            None => None,
        }
    } else {
        spec_parse_type_from_single(input)
    }
}

/// Tests the single-line layout.
pub fn is_single_line_layout(s: &str) -> (r: bool)
    ensures
        r == spec_is_single_line(s@),
{
    let n = s.unicode_len();
    let a = skip_letters(s, 0);
    let b = skip_wspace(s, a);
    if !(a >= 1 && b < n && s.get_char(b) == '=') {
        return false;
    }
    let c = skip_wspace(s, b + 1);
    c < n && s.get_char(c) == '"' && n - c >= 2 && s.get_char(n - 1) == '"'
}

/// Tests the multi-line opener layout.
pub fn is_multi_line_open_layout(s: &str) -> (r: bool)
    ensures
        r == spec_is_multi_line_open(s@),
{
    let n = s.unicode_len();
    let a = skip_letters(s, 0);
    let b = skip_wspace(s, a);
    if !(a >= 1 && b < n && s.get_char(b) == '=') {
        return false;
    }
    let c = skip_wspace(s, b + 1);
    n - c == 3 && s.get_char(c) == '[' && s.get_char(c + 1) == '=' && s.get_char(c + 2) == '['
}

/// Tests the array-opener layout.
pub fn is_array_open_layout(s: &str) -> (r: bool)
    ensures
        r == spec_is_array_open(s@),
{
    let n = s.unicode_len();
    if n < 2 || s.get_char(n - 1) != '{' {
        return false;
    }
    let g = rskip_wspace(s, n - 1);
    g > 0 && s.get_char(g - 1) == '='
}

/// Tests the quoted-array-element layout.
pub fn is_single_line_array_item_layout(s: &str) -> (r: bool)
    ensures
        r == spec_is_single_line_array_item(s@),
{
    let n = s.unicode_len();
    n >= 3 && s.get_char(0) == '"' && s.get_char(n - 2) == '"' && s.get_char(n - 1) == ','
}

/// Tests the indexed quoted-array-element layout.
pub fn is_single_line_array_ext_item_layout(s: &str) -> (r: bool)
    ensures
        r == spec_is_single_line_array_ext_item(s@),
{
    let n = s.unicode_len();
    let d = skip_digits(s, 0);
    let e = skip_wspace(s, d);
    if !(d >= 1 && e < n && s.get_char(e) == '=') {
        return false;
    }
    let f = skip_wspace(s, e + 1);
    f < n && s.get_char(f) == '"' && n - f >= 3 && s.get_char(n - 2) == '"' && s.get_char(n - 1)
        == ','
}

/// Tests the block-opener layout.
pub fn is_block_open_layout(s: &str) -> (r: bool)
    ensures
        r == spec_is_block_open(s@),
{
    let n = s.unicode_len();
    n == 3 && s.get_char(0) == '[' && s.get_char(1) == '=' && s.get_char(2) == '['
}

/// Tests the indexed block-opener layout.
pub fn is_multi_line_array_ext_open_layout(s: &str) -> (r: bool)
    ensures
        r == spec_is_multi_line_array_ext_open(s@),
{
    let n = s.unicode_len();
    let d = skip_digits(s, 0);
    let e = skip_wspace(s, d);
    if !(d >= 1 && e < n && s.get_char(e) == '=') {
        return false;
    }
    let c = skip_wspace(s, e + 1);
    n - c == 3 && s.get_char(c) == '[' && s.get_char(c + 1) == '=' && s.get_char(c + 2) == '['
}

/// Classifies a line that is not an array opener.
pub fn get_parse_type_from_single(input: &str) -> (r: Option<TextType>)
    ensures
        r == spec_parse_type_from_single(input@),
{
    if is_single_line_layout(input) {
        Some(TextType::SingleLine)
    } else if is_multi_line_open_layout(input) {
        Some(TextType::MultiLine)
    } else {
        None
    }
}

/// Classifies the line after an array opener.
pub fn get_parse_type_from_multi(input: &str) -> (r: Option<TextType>)
    ensures
        r == spec_parse_type_from_multi(input@),
{
    if is_single_line_array_item_layout(input) {
        Some(TextType::SingleLineArray)
    } else if is_single_line_array_ext_item_layout(input) {
        Some(TextType::SingleLineArrayExt)
    } else if is_block_open_layout(input) {
        Some(TextType::MultiLineArray)
    } else if is_multi_line_array_ext_open_layout(input) {
        Some(TextType::MultiLineArrayExt)
    } else {
        None
    }
}

/// Classifies a field line; an array opener is classified by peeking at the
/// following line.
pub fn get_text_type(input: &str, next_line: Option<&str>) -> (r: Option<TextType>)
    ensures
        r == spec_text_type(
            input@,
            match next_line {
                Some(n) => Some(n@),
                None => None,
            },
        ),
{
    if is_array_open_layout(input) {
        match next_line {
            Some(n) => get_parse_type_from_multi(n),
            None => None,
        }
    } else {
        get_parse_type_from_single(input)
    }
}

/// The field name of a line `name = ...`, trimmed of ASCII whitespace; `None`
/// when the line has no `=`.
pub open spec fn spec_get_field_type(s: Seq<char>) -> Option<FieldType> {
    if contains_char(s, '=') {
        let p = choose|p: int| 0 <= p < s.len() && s[p] == '=' && forall|x: int|
            0 <= x < p ==> s[x] != '=';
        let part = s.subrange(0, p);
        spec_field_type_of(spec_trim(part))
    } else {
        None
    }
}

/// ASCII-whitespace trim on both ends.
pub open spec fn spec_trim(s: Seq<char>) -> Seq<char> {
    let lo = scan_wspace(s, 0);
    let hi = rscan_wspace(s, s.len() as int);
    if lo < hi {
        s.subrange(lo, hi)
    } else {
        Seq::<char>::empty()
    }
}

/// Splits a line at its first `=` and parses the trimmed left part as a
/// field name.
pub fn get_field_type(line: &str) -> (r: Option<FieldType>)
    ensures
        r == spec_get_field_type(line@),
{
    match find_char(line, '=') {
        None => None,
        Some(p) => {
            proof {
                let q = choose|q: int| 0 <= q < line@.len() && line@[q] == '=' && forall|x: int|
                    0 <= x < q ==> line@[x] != '=';
                assert(q == p as int);
            }
            let part = substring(line, 0, p);
            let trimmed = trim_str(part.as_str());
            FieldType::from_str(trimmed.as_str())
        },
    }
}

/// Trims ASCII whitespace from both ends.
pub fn trim_str(s: &str) -> (r: String)
    ensures
        r@ == spec_trim(s@),
{
    let n = s.unicode_len();
    let lo = skip_wspace(s, 0);
    let hi = rskip_wspace(s, n);
    if lo < hi {
        substring(s, lo, hi)
    } else {
        String::new()
    }
}

/// A skill is worth keeping when it has an id and at least one of its four
/// tooltip field lists is non-empty.
pub open spec fn spec_is_available(data: crate::data::tooltip::SkillDataView) -> bool {
    data.id.len() > 0 && (data.researchtip.len() > 0 || data.researchubertip.len() > 0
        || data.tip.len() > 0 || data.ubertip.len() > 0)
}

/// Whether a parsed skill carries any tooltip data worth keeping.
pub fn is_available_skill_data(data: &SkillData) -> (r: bool)
    ensures
        r == spec_is_available(data@),
{
    !data.id.as_str().is_empty() && (data.researchtip.len() > 0 || data.researchubertip.len() > 0
        || data.tip.len() > 0 || data.ubertip.len() > 0)
}

} // verus!
