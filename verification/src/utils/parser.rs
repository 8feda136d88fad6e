use crate::data::tooltip::SkillData;
use crate::data::tooltip::SkillDataView;
use crate::data::tooltip::SkillMap;
use crate::data::tooltip::SkillSeq;
use crate::data::tooltip::skills_insert;
use crate::data::tooltip::strings_view;
use crate::utils::common::TextType;
use crate::utils::common::get_field_type;
use crate::utils::common::get_id;
use crate::utils::common::get_text_type;
use crate::utils::common::is_available_skill_data;
use crate::utils::common::is_single_line_array_ext_item_layout;
use crate::utils::common::is_single_line_array_item_layout;
use crate::utils::common::is_block_open_layout;
use crate::utils::common::is_multi_line_array_ext_open_layout;
use crate::utils::common::is_single_line_layout;
use crate::utils::common::spec_get_field_type;
use crate::utils::common::spec_get_id;
use crate::utils::common::spec_is_available;
use crate::utils::common::spec_is_block_open;
use crate::utils::common::spec_is_multi_line_array_ext_open;
use crate::utils::common::spec_is_single_line;
use crate::utils::common::spec_is_single_line_array_ext_item;
use crate::utils::common::spec_is_single_line_array_item;
use crate::utils::common::spec_single_line_array_ext_value;
use crate::utils::common::spec_single_line_array_value;
use crate::utils::common::spec_single_line_value;
use crate::utils::common::spec_text_type;
use crate::utils::text::ends_with;
use crate::utils::text::has_suffix;
use crate::utils::text::substring;
use vstd::prelude::*;

verus! {

// ---------------------------------------------------------------------------
// Splitting text into lines
// ---------------------------------------------------------------------------
/// The position of the next newline at or after `i`, or the end.
pub open spec fn scan_to_newline(s: Seq<char>, i: int) -> int
    decreases s.len() - i,
{
    if 0 <= i < s.len() && s[i] != '\n' {
        scan_to_newline(s, i + 1)
    } else {
        i
    }
}

/// A line with one trailing carriage return removed.
pub open spec fn strip_cr(l: Seq<char>) -> Seq<char> {
    if l.len() > 0 && l[l.len() - 1] == '\r' {
        l.take(l.len() - 1)
    } else {
        l
    }
}

/// The lines of the text from position `i` on: split at `\n`, one trailing
/// `\r` stripped per line, no empty final line after a trailing newline.
pub open spec fn lines_from(s: Seq<char>, i: int) -> Seq<Seq<char>>
    decreases s.len() - i,
    via lines_from_decreases
{
    if i >= s.len() || i < 0 {
        Seq::<Seq<char>>::empty()
    } else {
        let e = scan_to_newline(s, i);
        let line = strip_cr(s.subrange(i, e));
        if e >= s.len() {
            seq![line]
        } else {
            seq![line] + lines_from(s, e + 1)
        }
    }
}

#[via_fn]
proof fn lines_from_decreases(s: Seq<char>, i: int) {
    if 0 <= i < s.len() {
        lemma_scan_to_newline_bounds(s, i);
    }
}

/// The newline scan stays within `[i, s.len()]`.
proof fn lemma_scan_to_newline_bounds(s: Seq<char>, i: int)
    requires
        0 <= i <= s.len(),
    ensures
        i <= scan_to_newline(s, i) <= s.len(),
    decreases s.len() - i,
{
    if i < s.len() && s[i] != '\n' {
        lemma_scan_to_newline_bounds(s, i + 1);
    }
}

/// Scans for the next newline, as the executable counterpart of
/// `scan_to_newline`.
fn skip_to_newline(s: &str, i: usize) -> (r: usize)
    requires
        i <= s@.len(),
    ensures
        r == scan_to_newline(s@, i as int),
        i <= r <= s@.len(),
{
    let n = s.unicode_len();
    let mut j = i;
    while j < n && s.get_char(j) != '\n'
        invariant
            i <= j <= n,
            n == s@.len(),
            scan_to_newline(s@, i as int) == scan_to_newline(s@, j as int),
        decreases n - j,
    {
        j = j + 1;
    }
    j
}

/// Splits a text into its lines.
pub fn split_lines(content: &str) -> (r: Vec<String>)
    ensures
        strings_view(r@) == lines_from(content@, 0),
{
    let n = content.unicode_len();
    let mut r: Vec<String> = Vec::new();
    let mut pos: usize = 0;
    proof {
        assert(strings_view(r@) =~~= Seq::<Seq<char>>::empty());
    }
    while pos < n
        invariant
            pos <= n,
            n == content@.len(),
            lines_from(content@, 0) =~~= strings_view(r@) + lines_from(content@, pos as int),
        decreases n - pos,
    {
        let e = skip_to_newline(content, pos);
        let raw = substring(content, pos, e);
        let line = if raw.as_str().unicode_len() > 0 && raw.as_str().get_char(
            raw.as_str().unicode_len() - 1,
        ) == '\r' {
            let m = raw.as_str().unicode_len();
            let t = substring(raw.as_str(), 0, m - 1);
            proof {
                assert(t@ =~= strip_cr(raw@));
            }
            t
        } else {
            raw
        };
        let ghost prev = r@;
        r.push(line);
        proof {
            assert(strings_view(r@) =~~= strings_view(prev).push(line@));
        }
        if e < n {
            pos = e + 1;
        } else {
            pos = n;
            proof {
                assert(lines_from(content@, e as int) =~~= Seq::<Seq<char>>::empty());
            }
        }
        proof {
            assert(strings_view(r@) + lines_from(content@, pos as int) =~~= (strings_view(prev)
                + lines_from(content@, pos as int).insert(0, line@)));
            assert(lines_from(content@, pos as int).insert(0, line@) =~~= seq![line@] + lines_from(
                content@,
                pos as int,
            ));
        }
    }
    proof {
        assert(lines_from(content@, pos as int) =~~= Seq::<Seq<char>>::empty());
        assert(strings_view(r@) + Seq::<Seq<char>>::empty() =~~= strings_view(r@));
        assert(strings_view(r@) =~~= lines_from(content@, 0));
    }
    r
}

// ---------------------------------------------------------------------------
// The block handlers
// ---------------------------------------------------------------------------
/// A line holding exactly `}`.
pub open spec fn is_close_brace(s: Seq<char>) -> bool {
    s.len() == 1 && s[0] == '}'
}

/// The single-line handler's result: the quoted value, or the empty string
/// when the line does not match the single-line layout.
pub open spec fn spec_handle_single_line(s: Seq<char>) -> Seq<Seq<char>> {
    if spec_is_single_line(s) {
        seq![spec_single_line_value(s)]
    } else {
        seq![Seq::<char>::empty()]
    }
}

/// Extracts a single-line field's value.
pub fn handle_single_line(line: &str) -> (r: Vec<String>)
    ensures
        strings_view(r@) == spec_handle_single_line(line@),
{
    let mut out: Vec<String> = Vec::new();
    if is_single_line_layout(line) {
        let n = line.unicode_len();
        let a = crate::utils::text::skip_letters(line, 0);
        let b = crate::utils::text::skip_wspace(line, a);
        let c = crate::utils::text::skip_wspace(line, b + 1);
        out.push(substring(line, c + 1, n - 1));
    } else {
        out.push(String::new());
    }
    proof {
        assert(strings_view(out@) =~~= spec_handle_single_line(line@));
    }
    out
}

/// The multi-line handler's result: the lines up to one ending in `]=]`
/// joined with newlines (the closer's suffix stripped, no trailing newline on
/// the final fragment), and the position after the consumed lines.
pub open spec fn spec_handle_multi_line(ls: Seq<Seq<char>>, i: int) -> (Seq<char>, int)
    decreases ls.len() - i,
{
    if i < 0 || i >= ls.len() {
        (Seq::<char>::empty(), if i < 0 {
            i
        } else {
            ls.len() as int
        })
    } else if ends_with(ls[i], "]=]"@) {
        (ls[i].take(ls[i].len() - 3), i + 1)
    } else {
        let (rest, j) = spec_handle_multi_line(ls, i + 1);
        (ls[i] + seq!['\n'] + rest, j)
    }
}

/// The consumed span of the multi-line handler stays within the lines.
pub proof fn lemma_handle_multi_line_pos(ls: Seq<Seq<char>>, i: int)
    requires
        0 <= i <= ls.len(),
    ensures
        i <= spec_handle_multi_line(ls, i).1 <= ls.len(),
    decreases ls.len() - i,
{
    if i < ls.len() && !ends_with(ls[i], "]=]"@) {
        lemma_handle_multi_line_pos(ls, i + 1);
    }
}

/// Collects a multi-line value: lines joined by newlines until one ends in
/// `]=]`, whose remainder closes the value.
pub fn handle_multi_line(lines: &Vec<String>, pos: &mut usize) -> (r: Vec<String>)
    requires
        old(pos) <= lines@.len(),
    ensures
        ({
            let (s, j) = spec_handle_multi_line(strings_view(lines@), *old(pos) as int);
            strings_view(r@) == seq![s] && *final(pos) == j
        }),
{
    proof {
        reveal_strlit("]=]");
    }
    let ghost ls = strings_view(lines@);
    let mut result = String::new();
    let ghost start = *pos;
    while *pos < lines.len()
        invariant
            *old(pos) <= *pos <= lines@.len(),
            ls == strings_view(lines@),
            ls.len() == lines@.len(),
            "]=]"@ =~= seq![']', '=', ']'],
            forall|k: int| 0 <= k < ls.len() ==> ls[k] == lines@[k]@,
            spec_handle_multi_line(ls, *old(pos) as int) == (
                result@ + spec_handle_multi_line(ls, *pos as int).0,
                spec_handle_multi_line(ls, *pos as int).1,
            ),
        decreases lines@.len() - *pos,
    {
        let line = &lines[*pos];
        if has_suffix(line.as_str(), "]=]") {
            let m = line.as_str().unicode_len();
            let stripped = substring(line.as_str(), 0, m - 3);
            proof {
                assert(stripped@ =~= ls[*pos as int].take(ls[*pos as int].len() - 3));
            }
            result.append(stripped.as_str());
            *pos = *pos + 1;
            let mut out: Vec<String> = Vec::new();
            out.push(result);
            proof {
                assert(strings_view(out@) =~~= seq![
                    spec_handle_multi_line(ls, *old(pos) as int).0,
                ]);
            }
            return out;
        }
        result.append(line.as_str());
        result.append("\n");
        proof {
            reveal_strlit("\n");
            assert(result@ =~= (result@.take(result@.len() - 1 - ls[*pos as int].len()) + ls[
                *pos as int] + seq!['\n']));
        }
        *pos = *pos + 1;
    }
    let mut out: Vec<String> = Vec::new();
    out.push(result);
    proof {
        assert(spec_handle_multi_line(ls, *pos as int).0 =~= Seq::<char>::empty());
        assert(result@ + Seq::<char>::empty() =~= result@);
        assert(strings_view(out@) =~~= seq![spec_handle_multi_line(ls, *old(pos) as int).0]);
    }
    out
}

/// The quoted-array handler's result: the values of the matching quoted
/// lines up to (and consuming) the closing `}` line, and the position after.
pub open spec fn spec_handle_single_line_array(ls: Seq<Seq<char>>, i: int, ext: bool) -> (
    Seq<Seq<char>>,
    int,
)
    decreases ls.len() - i,
{
    if i < 0 || i >= ls.len() {
        (Seq::<Seq<char>>::empty(), if i < 0 {
            i
        } else {
            ls.len() as int
        })
    } else if is_close_brace(ls[i]) {
        (Seq::<Seq<char>>::empty(), i + 1)
    } else {
        let (rest, j) = spec_handle_single_line_array(ls, i + 1, ext);
        let line = ls[i];
        if !ext && spec_is_single_line_array_item(line) {
            (seq![spec_single_line_array_value(line)] + rest, j)
        } else if ext && spec_is_single_line_array_ext_item(line) {
            (seq![spec_single_line_array_ext_value(line)] + rest, j)
        } else {
            (rest, j)
        }
    }
}

/// The consumed span of the quoted-array handler stays within the lines.
pub proof fn lemma_handle_single_line_array_pos(ls: Seq<Seq<char>>, i: int, ext: bool)
    requires
        0 <= i <= ls.len(),
    ensures
        i <= spec_handle_single_line_array(ls, i, ext).1 <= ls.len(),
    decreases ls.len() - i,
{
    if i < ls.len() && !is_close_brace(ls[i]) {
        lemma_handle_single_line_array_pos(ls, i + 1, ext);
    }
}

/// Shared walker for the two quoted-array layouts.
fn handle_quoted_array(lines: &Vec<String>, pos: &mut usize, ext: bool) -> (r: Vec<String>)
    requires
        *old(pos) <= lines@.len(),
    ensures
        ({
            let (vals, j) = spec_handle_single_line_array(
                strings_view(lines@),
                *old(pos) as int,
                ext,
            );
            strings_view(r@) == vals && *final(pos) == j
        }),
{
    let ghost ls = strings_view(lines@);
    let mut out: Vec<String> = Vec::new();
    while *pos < lines.len()
        invariant
            *old(pos) <= *pos <= lines@.len(),
            ls == strings_view(lines@),
            ls.len() == lines@.len(),
            forall|k: int| 0 <= k < ls.len() ==> ls[k] == lines@[k]@,
            spec_handle_single_line_array(ls, *old(pos) as int, ext) == (
                strings_view(out@) + spec_handle_single_line_array(ls, *pos as int, ext).0,
                spec_handle_single_line_array(ls, *pos as int, ext).1,
            ),
        decreases lines@.len() - *pos,
    {
        let line = &lines[*pos];
        let n = line.as_str().unicode_len();
        if n == 1 && line.as_str().get_char(0) == '}' {
            *pos = *pos + 1;
            proof {
                assert(strings_view(out@) + Seq::<Seq<char>>::empty() =~~= strings_view(out@));
            }
            return out;
        }
        let ghost prev = out@;
        if !ext {
            if is_single_line_array_item_layout(line.as_str()) {
                out.push(substring(line.as_str(), 1, n - 2));
            }
        } else {
            if is_single_line_array_ext_item_layout(line.as_str()) {
                let d = crate::utils::text::skip_digits(line.as_str(), 0);
                let e = crate::utils::text::skip_wspace(line.as_str(), d);
                let f = crate::utils::text::skip_wspace(line.as_str(), e + 1);
                out.push(substring(line.as_str(), f + 1, n - 2));
            }
        }
        proof {
            if out@.len() > prev.len() {
                assert(strings_view(out@) =~~= strings_view(prev).push(out@[prev.len() as int]@));
            } else {
                assert(strings_view(out@) =~~= strings_view(prev));
            }
        }
        *pos = *pos + 1;
        proof {
            assert(spec_handle_single_line_array(ls, *old(pos) as int, ext) == (
                strings_view(out@) + spec_handle_single_line_array(ls, *pos as int, ext).0,
                spec_handle_single_line_array(ls, *pos as int, ext).1,
            )) by {
                assert(strings_view(prev) + (seq![ls[*pos - 1].subrange(
                    1,
                    ls[*pos - 1].len() - 2,
                )] + spec_handle_single_line_array(ls, *pos as int, ext).0) =~~= (strings_view(
                    prev,
                ).push(ls[*pos - 1].subrange(1, ls[*pos - 1].len() - 2)) + spec_handle_single_line_array(
                    ls,
                    *pos as int,
                    ext,
                ).0)) by {
                }
                assert forall|a: Seq<Seq<char>>, x: Seq<char>, c: Seq<Seq<char>>|
                    true implies #[trigger] (a + (seq![x] + c)) =~~= (a.push(x) + c) by {
                }
            }
        }
    }
    proof {
        assert(strings_view(out@) + Seq::<Seq<char>>::empty() =~~= strings_view(out@));
    }
    out
}

/// Collects the quoted values of an array block up to its `}` line.
pub fn handle_single_line_array(lines: &Vec<String>, pos: &mut usize) -> (r: Vec<String>)
    requires
        *old(pos) <= lines@.len(),
    ensures
        ({
            let (vals, j) = spec_handle_single_line_array(
                strings_view(lines@),
                *old(pos) as int,
                false,
            );
            strings_view(r@) == vals && *final(pos) == j
        }),
{
    handle_quoted_array(lines, pos, false)
}

/// Collects the quoted values of an indexed array block up to its `}` line.
pub fn handle_single_line_array_ext(lines: &Vec<String>, pos: &mut usize) -> (r: Vec<String>)
    requires
        *old(pos) <= lines@.len(),
    ensures
        ({
            let (vals, j) = spec_handle_single_line_array(
                strings_view(lines@),
                *old(pos) as int,
                true,
            );
            strings_view(r@) == vals && *final(pos) == j
        }),
{
    handle_quoted_array(lines, pos, true)
}

/// One step of block accumulation: a line ending in `]=],` closes a fragment
/// without a newline; any other line is appended with one.
pub open spec fn spec_handle_newline(line: Seq<char>, cur: Seq<char>, marker: Seq<char>) -> Seq<
    char,
> {
    if ends_with(line, marker) {
        cur + line.take(line.len() - marker.len())
    } else {
        cur + line + seq!['\n']
    }
}

/// Appends one line to the block being accumulated, stripping the end marker
/// when the line closes the block fragment.
pub fn handle_newline(line: &str, current_block: &mut String, end_marker: &str)
    ensures
        final(current_block)@ == spec_handle_newline(line@, old(current_block)@, end_marker@),
{
    proof {
        reveal_strlit("\n");
    }
    if has_suffix(line, end_marker) {
        let n = line.unicode_len();
        let m = end_marker.unicode_len();
        let stripped = substring(line, 0, n - m);
        proof {
            assert(stripped@ =~= line@.take(line@.len() - end_marker@.len()));
        }
        current_block.append(stripped.as_str());
    } else {
        current_block.append(line);
        current_block.append("\n");
    }
}

/// The block-array handler's result: fragments delimited by opener lines,
/// closed by `}` (which pushes the final fragment), each fragment built by
/// `spec_handle_newline` with the `]=],` marker. Running out of lines drops
/// the unfinished fragment.
pub open spec fn spec_handle_multi_line_array(
    ls: Seq<Seq<char>>,
    i: int,
    cur: Seq<char>,
    acc: Seq<Seq<char>>,
    ext: bool,
) -> (Seq<Seq<char>>, int)
    decreases ls.len() - i,
{
    if i < 0 || i >= ls.len() {
        (acc, if i < 0 {
            i
        } else {
            ls.len() as int
        })
    } else if is_close_brace(ls[i]) {
        (acc.push(cur), i + 1)
    } else if (!ext && spec_is_block_open(ls[i])) || (ext && spec_is_multi_line_array_ext_open(
        ls[i],
    )) {
        if cur.len() > 0 {
            spec_handle_multi_line_array(ls, i + 1, Seq::<char>::empty(), acc.push(cur), ext)
        } else {
            spec_handle_multi_line_array(ls, i + 1, cur, acc, ext)
        }
    } else {
        spec_handle_multi_line_array(
            ls,
            i + 1,
            spec_handle_newline(ls[i], cur, "]=],"@),
            acc,
            ext,
        )
    }
}

/// The consumed span of the block-array handler stays within the lines.
pub proof fn lemma_handle_multi_line_array_pos(
    ls: Seq<Seq<char>>,
    i: int,
    cur: Seq<char>,
    acc: Seq<Seq<char>>,
    ext: bool,
)
    requires
        0 <= i <= ls.len(),
    ensures
        i <= spec_handle_multi_line_array(ls, i, cur, acc, ext).1 <= ls.len(),
    decreases ls.len() - i,
{
    if i < ls.len() && !is_close_brace(ls[i]) {
        if (!ext && spec_is_block_open(ls[i])) || (ext && spec_is_multi_line_array_ext_open(
            ls[i],
        )) {
            if cur.len() > 0 {
                lemma_handle_multi_line_array_pos(ls, i + 1, Seq::empty(), acc.push(cur), ext);
            } else {
                lemma_handle_multi_line_array_pos(ls, i + 1, cur, acc, ext);
            }
        } else {
            lemma_handle_multi_line_array_pos(
                ls,
                i + 1,
                spec_handle_newline(ls[i], cur, "]=],"@),
                acc,
                ext,
            );
        }
    }
}

/// Shared walker for the two block-array layouts.
fn handle_block_array(lines: &Vec<String>, pos: &mut usize, ext: bool) -> (r: Vec<String>)
    requires
        *old(pos) <= lines@.len(),
    ensures
        ({
            let (vals, j) = spec_handle_multi_line_array(
                strings_view(lines@),
                *old(pos) as int,
                Seq::<char>::empty(),
                Seq::<Seq<char>>::empty(),
                ext,
            );
            strings_view(r@) == vals && *final(pos) == j
        }),
{
    proof {
        reveal_strlit("]=],");
    }
    let ghost ls = strings_view(lines@);
    let mut result: Vec<String> = Vec::new();
    let mut current_block = String::new();
    proof {
        assert(strings_view(result@) =~~= Seq::<Seq<char>>::empty());
    }
    while *pos < lines.len()
        invariant
            *old(pos) <= *pos <= lines@.len(),
            ls == strings_view(lines@),
            ls.len() == lines@.len(),
            "]=],"@ =~= seq![']', '=', ']', ','],
            forall|k: int| 0 <= k < ls.len() ==> ls[k] == lines@[k]@,
            spec_handle_multi_line_array(
                ls,
                *old(pos) as int,
                Seq::<char>::empty(),
                Seq::<Seq<char>>::empty(),
                ext,
            ) == spec_handle_multi_line_array(
                ls,
                *pos as int,
                current_block@,
                strings_view(result@),
                ext,
            ),
        decreases lines@.len() - *pos,
    {
        let line = &lines[*pos];
        let n = line.as_str().unicode_len();
        if n == 1 && line.as_str().get_char(0) == '}' {
            let ghost prev = result@;
            result.push(current_block);
            *pos = *pos + 1;
            proof {
                assert(strings_view(result@) =~~= strings_view(prev).push(
                    result@[prev.len() as int]@,
                ));
            }
            return result;
        }
        let opener = if !ext {
            is_block_open_layout(line.as_str())
        } else {
            is_multi_line_array_ext_open_layout(line.as_str())
        };
        if opener {
            if current_block.as_str().unicode_len() > 0 {
                let ghost prev = result@;
                result.push(current_block);
                current_block = String::new();
                proof {
                    assert(strings_view(result@) =~~= strings_view(prev).push(
                        result@[prev.len() as int]@,
                    ));
                }
            }
        } else {
            handle_newline(line.as_str(), &mut current_block, "]=],");
        }
        *pos = *pos + 1;
    }
    proof {
        assert(spec_handle_multi_line_array(
            ls,
            *pos as int,
            current_block@,
            strings_view(result@),
            ext,
        ) == (strings_view(result@), *pos as int));
    }
    result
}

/// Collects the block fragments of a multi-line array up to its `}` line.
pub fn handle_multi_line_array(lines: &Vec<String>, pos: &mut usize) -> (r: Vec<String>)
    requires
        *old(pos) <= lines@.len(),
    ensures
        ({
            let (vals, j) = spec_handle_multi_line_array(
                strings_view(lines@),
                *old(pos) as int,
                Seq::<char>::empty(),
                Seq::<Seq<char>>::empty(),
                false,
            );
            strings_view(r@) == vals && *final(pos) == j
        }),
{
    handle_block_array(lines, pos, false)
}

/// Collects the block fragments of an indexed multi-line array up to its `}`
/// line.
pub fn handle_multi_line_array_ext(lines: &Vec<String>, pos: &mut usize) -> (r: Vec<String>)
    requires
        *old(pos) <= lines@.len(),
    ensures
        ({
            let (vals, j) = spec_handle_multi_line_array(
                strings_view(lines@),
                *old(pos) as int,
                Seq::<char>::empty(),
                Seq::<Seq<char>>::empty(),
                true,
            );
            strings_view(r@) == vals && *final(pos) == j
        }),
{
    handle_block_array(lines, pos, true)
}

// ---------------------------------------------------------------------------
// Parsing whole files
// ---------------------------------------------------------------------------
/// A fresh, empty skill record.
pub open spec fn spec_default_data() -> SkillDataView {
    SkillDataView {
        id: Seq::<char>::empty(),
        researchtip: Seq::<Seq<char>>::empty(),
        researchubertip: Seq::<Seq<char>>::empty(),
        tip: Seq::<Seq<char>>::empty(),
        ubertip: Seq::<Seq<char>>::empty(),
        text_type_map: crate::data::tooltip::FieldTypeMap {
            researchtip: None,
            researchubertip: None,
            tip: None,
            ubertip: None,
        },
    }
}

/// The values and resume position a layout's handler produces, starting on
/// the line after the field line at `i`.
pub open spec fn spec_handler_result(ls: Seq<Seq<char>>, i: int, tt: TextType) -> (
    Seq<Seq<char>>,
    int,
) {
    match tt {
        TextType::SingleLine => (spec_handle_single_line(ls[i]), i + 1),
        TextType::MultiLine => {
            let (s, j) = spec_handle_multi_line(ls, i + 1);
            (seq![s], j)
        },
        TextType::SingleLineArray => spec_handle_single_line_array(ls, i + 1, false),
        TextType::SingleLineArrayExt => spec_handle_single_line_array(ls, i + 1, true),
        TextType::MultiLineArray => spec_handle_multi_line_array(
            ls,
            i + 1,
            Seq::<char>::empty(),
            Seq::<Seq<char>>::empty(),
            false,
        ),
        TextType::MultiLineArrayExt => spec_handle_multi_line_array(
            ls,
            i + 1,
            Seq::<char>::empty(),
            Seq::<Seq<char>>::empty(),
            true,
        ),
    }
}

/// A handler never resumes before the line after the field line.
pub proof fn lemma_handler_result_pos(ls: Seq<Seq<char>>, i: int, tt: TextType)
    requires
        0 <= i < ls.len(),
    ensures
        i + 1 <= spec_handler_result(ls, i, tt).1 <= ls.len(),
{
    match tt {
        TextType::SingleLine => {},
        TextType::MultiLine => {
            lemma_handle_multi_line_pos(ls, i + 1);
        },
        TextType::SingleLineArray => {
            lemma_handle_single_line_array_pos(ls, i + 1, false);
        },
        TextType::SingleLineArrayExt => {
            lemma_handle_single_line_array_pos(ls, i + 1, true);
        },
        TextType::MultiLineArray => {
            lemma_handle_multi_line_array_pos(
                ls,
                i + 1,
                Seq::<char>::empty(),
                Seq::<Seq<char>>::empty(),
                false,
            );
        },
        TextType::MultiLineArrayExt => {
            lemma_handle_multi_line_array_pos(
                ls,
                i + 1,
                Seq::<char>::empty(),
                Seq::<Seq<char>>::empty(),
                true,
            );
        },
    }
}

/// The parse of the lines from `i` on, carrying the id being read, the skill
/// record being filled, and the skills finished so far. A section id line
/// flushes the current record if it is worth keeping and starts a fresh one;
/// a recognized field line runs its layout's handler and stores the values;
/// the end of input flushes a final record worth keeping.
pub open spec fn spec_parse_lines(
    ls: Seq<Seq<char>>,
    i: int,
    cur_id: Seq<char>,
    cur: SkillDataView,
    acc: SkillSeq,
) -> SkillSeq
    decreases ls.len() - i,
    via spec_parse_lines_decreases
{
    if i < 0 || i >= ls.len() {
        if spec_is_available(cur) {
            skills_insert(acc, cur_id, cur)
        } else {
            acc
        }
    } else {
        let line = ls[i];
        let (id2, cur2, acc2) = match spec_get_id(line) {
            Some(id) => if spec_is_available(cur) {
                (id, SkillDataView { id: id, ..spec_default_data() }, skills_insert(acc, cur_id, cur))
            } else {
                (id, SkillDataView { id: id, ..cur }, acc)
            },
            None => (cur_id, cur, acc),
        };
        match spec_get_field_type(line) {
            Some(ft) => {
                let next = if i + 1 < ls.len() {
                    Some(ls[i + 1])
                } else {
                    None
                };
                match spec_text_type(line, next) {
                    Some(tt) => {
                        let (vals, j) = spec_handler_result(ls, i, tt);
                        spec_parse_lines(ls, j, id2, cur2.spec_insert_data(tt, ft, vals), acc2)
                    },
                    None => spec_parse_lines(ls, i + 1, id2, cur2, acc2),
                }
            },
            None => spec_parse_lines(ls, i + 1, id2, cur2, acc2),
        }
    }
}

#[via_fn]
proof fn spec_parse_lines_decreases(
    ls: Seq<Seq<char>>,
    i: int,
    cur_id: Seq<char>,
    cur: SkillDataView,
    acc: SkillSeq,
) {
    if 0 <= i < ls.len() {
        assert forall|tt: TextType| i + 1 <= (#[trigger] spec_handler_result(ls, i, tt)).1
            <= ls.len() by {
            lemma_handler_result_pos(ls, i, tt);
        }
    }
}

/// Parses an entire tooltip text into its skills, keyed and sorted by skill
/// id, exactly as `spec_parse_lines` walks the text's lines.
pub fn parse_content(content: &str) -> (r: SkillMap)
    ensures
        r@ == spec_parse_lines(
            lines_from(content@, 0),
            0,
            Seq::<char>::empty(),
            spec_default_data(),
            Seq::<(Seq<char>, SkillDataView)>::empty(),
        ),
        r.wf(),
{
    let lines = split_lines(content);
    let ghost ls = strings_view(lines@);
    let mut entries = SkillMap::new();
    let mut current_id = String::new();
    let mut current_data = SkillData::default();
    let mut pos: usize = 0;
    proof {
        assert(current_data@ =~~= spec_default_data());
    }
    while pos < lines.len()
        invariant
            pos <= lines@.len(),
            ls == strings_view(lines@),
            ls.len() == lines@.len(),
            forall|k: int| 0 <= k < ls.len() ==> ls[k] == lines@[k]@,
            entries.wf(),
            spec_parse_lines(
                ls,
                0,
                Seq::<char>::empty(),
                spec_default_data(),
                Seq::<(Seq<char>, SkillDataView)>::empty(),
            ) == spec_parse_lines(ls, pos as int, current_id@, current_data@, entries@),
        decreases lines@.len() - pos,
    {
        let ghost pos0 = pos as int;
        let ghost cur0 = current_data@;
        let ghost cid0 = current_id@;
        let ghost acc0 = entries@;
        let line_ref = &lines[pos];
        match get_id(line_ref.as_str()) {
            Some(id) => {
                if is_available_skill_data(&current_data) {
                    entries.insert(current_id, current_data);
                    current_data = SkillData::default();
                    proof {
                        assert(current_data@ =~~= spec_default_data());
                    }
                }
                current_id = id;
                current_data.id = current_id.clone();
                proof {
                    assert(current_data@ =~~= (SkillDataView { id: current_id@, ..cur0 }) || current_data@
                        =~~= (SkillDataView { id: current_id@, ..spec_default_data() }));
                }
            },
            None => {},
        }
        let ghost id2 = current_id@;
        let ghost cur2 = current_data@;
        let ghost acc2 = entries@;
        match get_field_type(lines[pos].as_str()) {
            Some(ft) => {
                let next_is: bool = pos + 1 < lines.len();
                let tt_opt: Option<TextType> = if next_is {
                    get_text_type(lines[pos].as_str(), Some(lines[pos + 1].as_str()))
                } else {
                    get_text_type(lines[pos].as_str(), None)
                };
                match tt_opt {
                    Some(tt) => {
                        proof {
                            lemma_handler_result_pos(ls, pos0, tt);
                        }
                        let vals: Vec<String> = match tt {
                            TextType::SingleLine => {
                                let v = handle_single_line(lines[pos].as_str());
                                pos = pos + 1;
                                v
                            },
                            TextType::MultiLine => {
                                pos = pos + 1;
                                handle_multi_line(&lines, &mut pos)
                            },
                            TextType::SingleLineArray => {
                                pos = pos + 1;
                                handle_single_line_array(&lines, &mut pos)
                            },
                            TextType::SingleLineArrayExt => {
                                pos = pos + 1;
                                handle_single_line_array_ext(&lines, &mut pos)
                            },
                            TextType::MultiLineArray => {
                                pos = pos + 1;
                                handle_multi_line_array(&lines, &mut pos)
                            },
                            TextType::MultiLineArrayExt => {
                                pos = pos + 1;
                                handle_multi_line_array_ext(&lines, &mut pos)
                            },
                        };
                        proof {
                            assert(strings_view(vals@) == spec_handler_result(ls, pos0, tt).0
                                && pos as int == spec_handler_result(ls, pos0, tt).1);
                        }
                        current_data.insert_data(tt, ft, vals);
                    },
                    None => {
                        pos = pos + 1;
                    },
                }
            },
            None => {
                pos = pos + 1;
            },
        }
    }
    if is_available_skill_data(&current_data) {
        entries.insert(current_id, current_data);
    }
    entries
}

} // verus!
