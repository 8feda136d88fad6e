use vstd::prelude::*;

verus! {

// ---------------------------------------------------------------------------
// Character classes
// ---------------------------------------------------------------------------
/// ASCII whitespace, the only whitespace the tooltip dialect uses.
pub open spec fn is_wspace(c: char) -> bool {
    c == ' ' || c == '\t' || c == '\r' || c == '\n' || c == '\u{000B}' || c == '\u{000C}'
}

/// An ASCII letter.
pub open spec fn is_letter(c: char) -> bool {
    ('a' <= c && c <= 'z') || ('A' <= c && c <= 'Z')
}

/// An ASCII digit.
pub open spec fn is_digit(c: char) -> bool {
    '0' <= c && c <= '9'
}

/// An ASCII letter or digit.
pub open spec fn is_alnum(c: char) -> bool {
    is_letter(c) || is_digit(c)
}

/// The end of the whitespace run starting at `i`.
pub open spec fn scan_wspace(s: Seq<char>, i: int) -> int
    decreases s.len() - i,
{
    if 0 <= i < s.len() && is_wspace(s[i]) {
        scan_wspace(s, i + 1)
    } else {
        i
    }
}

/// The end of the letter run starting at `i`.
pub open spec fn scan_letters(s: Seq<char>, i: int) -> int
    decreases s.len() - i,
{
    if 0 <= i < s.len() && is_letter(s[i]) {
        scan_letters(s, i + 1)
    } else {
        i
    }
}

/// The end of the digit run starting at `i`.
pub open spec fn scan_digits(s: Seq<char>, i: int) -> int
    decreases s.len() - i,
{
    if 0 <= i < s.len() && is_digit(s[i]) {
        scan_digits(s, i + 1)
    } else {
        i
    }
}

/// The start of the whitespace run ending at `i` (exclusive), scanning
/// backward.
pub open spec fn rscan_wspace(s: Seq<char>, i: int) -> int
    decreases i,
{
    if 0 < i <= s.len() && is_wspace(s[i - 1]) {
        rscan_wspace(s, i - 1)
    } else {
        i
    }
}

/// Forward scan positions stay within `[i, s.len()]`.
pub proof fn lemma_scan_bounds(s: Seq<char>, i: int)
    requires
        0 <= i <= s.len(),
    ensures
        i <= scan_wspace(s, i) <= s.len(),
        i <= scan_letters(s, i) <= s.len(),
        i <= scan_digits(s, i) <= s.len(),
    decreases s.len() - i,
{
    if i < s.len() && (is_wspace(s[i]) || is_letter(s[i]) || is_digit(s[i])) {
        lemma_scan_bounds(s, i + 1);
    }
}

/// The backward scan position stays within `[0, i]`.
pub proof fn lemma_rscan_bounds(s: Seq<char>, i: int)
    requires
        0 <= i <= s.len(),
    ensures
        0 <= rscan_wspace(s, i) <= i,
    decreases i,
{
    if 0 < i && is_wspace(s[i - 1]) {
        lemma_rscan_bounds(s, i - 1);
    }
}

// ---------------------------------------------------------------------------
// Executable counterparts
// ---------------------------------------------------------------------------
/// Whether a char is ASCII whitespace.
pub fn wspace_char(c: char) -> (r: bool)
    ensures
        r == is_wspace(c),
{
    c == ' ' || c == '\t' || c == '\r' || c == '\n' || c == '\u{000B}' || c == '\u{000C}'
}

/// Whether a char is an ASCII letter.
pub fn letter_char(c: char) -> (r: bool)
    ensures
        r == is_letter(c),
{
    ('a' <= c && c <= 'z') || ('A' <= c && c <= 'Z')
}

/// Whether a char is an ASCII digit.
pub fn digit_char(c: char) -> (r: bool)
    ensures
        r == is_digit(c),
{
    '0' <= c && c <= '9'
}

/// Whether a char is an ASCII letter or digit.
pub fn alnum_char(c: char) -> (r: bool)
    ensures
        r == is_alnum(c),
{
    letter_char(c) || digit_char(c)
}

/// Skips ASCII whitespace forward from `i`.
pub fn skip_wspace(s: &str, i: usize) -> (r: usize)
    requires
        i <= s@.len(),
    ensures
        r == scan_wspace(s@, i as int),
        i <= r <= s@.len(),
{
    let n = s.unicode_len();
    let mut j = i;
    while j < n && wspace_char(s.get_char(j))
        invariant
            i <= j <= n,
            n == s@.len(),
            scan_wspace(s@, i as int) == scan_wspace(s@, j as int),
        decreases n - j,
    {
        j = j + 1;
    }
    proof {
        lemma_scan_bounds(s@, j as int);
    }
    j
}

/// Skips ASCII letters forward from `i`.
pub fn skip_letters(s: &str, i: usize) -> (r: usize)
    requires
        i <= s@.len(),
    ensures
        r == scan_letters(s@, i as int),
        i <= r <= s@.len(),
{
    let n = s.unicode_len();
    let mut j = i;
    while j < n && letter_char(s.get_char(j))
        invariant
            i <= j <= n,
            n == s@.len(),
            scan_letters(s@, i as int) == scan_letters(s@, j as int),
        decreases n - j,
    {
        j = j + 1;
    }
    proof {
        lemma_scan_bounds(s@, j as int);
    }
    j
}

/// Skips ASCII digits forward from `i`.
pub fn skip_digits(s: &str, i: usize) -> (r: usize)
    requires
        i <= s@.len(),
    ensures
        r == scan_digits(s@, i as int),
        i <= r <= s@.len(),
{
    let n = s.unicode_len();
    let mut j = i;
    while j < n && digit_char(s.get_char(j))
        invariant
            i <= j <= n,
            n == s@.len(),
            scan_digits(s@, i as int) == scan_digits(s@, j as int),
        decreases n - j,
    {
        j = j + 1;
    }
    proof {
        lemma_scan_bounds(s@, j as int);
    }
    j
}

/// Skips ASCII whitespace backward from `i` (exclusive).
pub fn rskip_wspace(s: &str, i: usize) -> (r: usize)
    requires
        i <= s@.len(),
    ensures
        r == rscan_wspace(s@, i as int),
        r <= i,
{
    let mut j = i;
    while j > 0 && wspace_char(s.get_char(j - 1))
        invariant
            j <= i <= s@.len(),
            rscan_wspace(s@, i as int) == rscan_wspace(s@, j as int),
        decreases j,
    {
        j = j - 1;
    }
    j
}

/// Whether two string slices hold the same characters.
pub fn str_eq(a: &str, b: &str) -> (r: bool)
    ensures
        r <==> a@ == b@,
{
    let n = a.unicode_len();
    if n != b.unicode_len() {
        return false;
    }
    let mut i: usize = 0;
    while i < n
        invariant
            i <= n,
            n == a@.len(),
            n == b@.len(),
            forall|k: int| 0 <= k < i ==> a@[k] == b@[k],
        decreases n - i,
    {
        if a.get_char(i) != b.get_char(i) {
            return false;
        }
        i = i + 1;
    }
    proof {
        assert(a@ =~= b@);
    }
    true
}

/// Whether a string holds the character anywhere.
pub open spec fn contains_char(s: Seq<char>, c: char) -> bool {
    exists|k: int| 0 <= k < s.len() && s[k] == c
}

/// Scans for a character.
pub fn find_char(s: &str, c: char) -> (r: Option<usize>)
    ensures
        match r {
            Some(k) => k < s@.len() && s@[k as int] == c && forall|x: int| 0 <= x < k ==> s@[x] != c,
            None => !contains_char(s@, c),
        },
{
    let n = s.unicode_len();
    let mut i: usize = 0;
    while i < n
        invariant
            i <= n,
            n == s@.len(),
            forall|x: int| 0 <= x < i ==> s@[x] != c,
        decreases n - i,
    {
        if s.get_char(i) == c {
            return Some(i);
        }
        i = i + 1;
    }
    None
}

/// Whether the string ends with the suffix.
pub open spec fn ends_with(s: Seq<char>, suf: Seq<char>) -> bool {
    s.len() >= suf.len() && s.subrange(s.len() - suf.len(), s.len() as int) == suf
}

/// Tests a suffix.
pub fn has_suffix(s: &str, suf: &str) -> (r: bool)
    ensures
        r == ends_with(s@, suf@),
{
    let n = s.unicode_len();
    let m = suf.unicode_len();
    if m > n {
        proof {
            assert(!ends_with(s@, suf@));
        }
        return false;
    }
    let mut i: usize = 0;
    while i < m
        invariant
            i <= m <= n,
            n == s@.len(),
            m == suf@.len(),
            forall|k: int| 0 <= k < i ==> s@[n - m + k] == suf@[k],
        decreases m - i,
    {
        if s.get_char(n - m + i) != suf.get_char(i) {
            proof {
                assert(s@.subrange(n - m, n as int)[i as int] == s@[n - m + i]);
            }
            return false;
        }
        i = i + 1;
    }
    proof {
        assert(s@.subrange(n - m, n as int) =~= suf@);
    }
    true
}

/// The decimal digits of a number, most significant first.
pub open spec fn dec_digits(n: nat) -> Seq<char>
    decreases n,
{
    if n < 10 {
        seq![digit_to_char(n as int)]
    } else {
        dec_digits(n / 10) + seq![digit_to_char((n % 10) as int)]
    }
}

/// The character of one decimal digit.
pub open spec fn digit_to_char(d: int) -> char {
    ((0x30 + d) as u8) as char
}

/// One decimal digit as a string slice.
fn digit_str(d: usize) -> (r: &'static str)
    requires
        d < 10,
    ensures
        r@ == seq![digit_to_char(d as int)],
{
    proof {
        reveal_strlit("0");
        reveal_strlit("1");
        reveal_strlit("2");
        reveal_strlit("3");
        reveal_strlit("4");
        reveal_strlit("5");
        reveal_strlit("6");
        reveal_strlit("7");
        reveal_strlit("8");
        reveal_strlit("9");
    }
    match d {
        0 => "0",
        1 => "1",
        2 => "2",
        3 => "3",
        4 => "4",
        5 => "5",
        6 => "6",
        7 => "7",
        8 => "8",
        _ => {
            proof {
                assert(d == 9);
            }
            "9"
        },
    }
}

/// Formats a number in decimal.
pub fn dec_str(n: usize) -> (r: String)
    ensures
        r@ == dec_digits(n as nat),
    decreases n,
{
    if n < 10 {
        digit_str(n).to_owned()
    } else {
        let mut s = dec_str(n / 10);
        s.append(digit_str(n % 10));
        s
    }
}

/// A string of the characters `s[from..to]`.
pub fn substring(s: &str, from: usize, to: usize) -> (r: String)
    requires
        from <= to <= s@.len(),
    ensures
        r@ == s@.subrange(from as int, to as int),
{
    s.substring_char(from, to).to_owned()
}

} // verus!
