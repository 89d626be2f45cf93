//! Character classes and small text transformations used by the editor,
//! each stated as a spec function over `Seq<char>` and implemented by a
//! verified executable function.
use vstd::prelude::*;

verus! {

/// Unicode `White_Space` property (the set `char::is_whitespace` tests).
pub open spec fn is_ws(c: char) -> bool {
    let v = c as u32;
    (9 <= v && v <= 13) || v == 32 || v == 0x85 || v == 0xa0 || v == 0x1680 || (0x2000 <= v
        && v <= 0x200a) || v == 0x2028 || v == 0x2029 || v == 0x202f || v == 0x205f || v
        == 0x3000
}

/// ASCII whitespace as `char::is_ascii_whitespace` defines it.
pub open spec fn is_ascii_ws(c: char) -> bool {
    let v = c as u32;
    v == 32 || v == 9 || v == 10 || v == 12 || v == 13
}

/// General category `Cc`, the set `char::is_control` tests.
pub open spec fn is_ctrl(c: char) -> bool {
    let v = c as u32;
    v <= 0x1f || (0x7f <= v && v <= 0x9f)
}

pub open spec fn is_digit(c: char) -> bool {
    let v = c as u32;
    48 <= v && v <= 57
}

pub open spec fn digit_value(c: char) -> nat {
    ((c as u32) - 48) as nat
}

pub fn is_whitespace(c: char) -> (r: bool)
    ensures
        r == is_ws(c),
{
    let v = c as u32;
    (9 <= v && v <= 13) || v == 32 || v == 0x85 || v == 0xa0 || v == 0x1680 || (0x2000 <= v
        && v <= 0x200a) || v == 0x2028 || v == 0x2029 || v == 0x202f || v == 0x205f || v
        == 0x3000
}

pub fn is_ascii_whitespace(c: char) -> (r: bool)
    ensures
        r == is_ascii_ws(c),
{
    let v = c as u32;
    v == 32 || v == 9 || v == 10 || v == 12 || v == 13
}

pub fn is_control(c: char) -> (r: bool)
    ensures
        r == is_ctrl(c),
{
    let v = c as u32;
    v <= 0x1f || (0x7f <= v && v <= 0x9f)
}

pub fn is_ascii_digit(c: char) -> (r: bool)
    ensures
        r == is_digit(c),
{
    let v = c as u32;
    48 <= v && v <= 57
}

/// Whether `c` has one of the Unicode general categories for numbers.
pub uninterp spec fn char_is_numeric(c: char) -> bool;

/// Calls `char::is_numeric`. Its documentation says that it is true for
/// the number categories `Nd`, `Nl` and `No`; of the ASCII characters these
/// hold the digits `0` to `9` and nothing else. Which other characters are
/// numeric is left to the name.
#[verifier::external_body]
pub(crate) fn is_numeric(c: char) -> (r: bool)
    ensures
        r == char_is_numeric(c),
        (c as u32) < 128 ==> (r <==> is_digit(c)),
{
    c.is_numeric()
}

/// Builds a `String` from characters: std's `collect` into a `String`
/// appends the characters in order, so its view is the sequence given.
#[verifier::external_body]
pub(crate) fn string_from_chars(chars: &[char]) -> (s: String)
    ensures
        s@ == chars@,
{
    chars.iter().collect()
}

/// The characters of a string, in order.
pub fn chars_of(s: &str) -> (v: Vec<char>)
    ensures
        v@ == s@,
{
    let mut v: Vec<char> = Vec::new();
    for c in it: s.chars()
        invariant
            v@ == it.seq().take(it.index() as int),
    {
        v.push(c);
    }
    v
}

/// Index of the first character at or after `i` that is not whitespace.
pub open spec fn lead_end(s: Seq<char>, i: int) -> int
    decreases s.len() - i,
{
    if i < 0 || i >= s.len() || !is_ws(s[i]) {
        i
    } else {
        lead_end(s, i + 1)
    }
}

/// Index just past the last character before `j` that is not whitespace.
pub open spec fn trail_end(s: Seq<char>, j: int) -> int
    decreases j,
{
    if j <= 0 || j > s.len() || !is_ws(s[j - 1]) {
        j
    } else {
        trail_end(s, j - 1)
    }
}

/// `str::trim`: the text without leading and trailing whitespace.
pub open spec fn trim(s: Seq<char>) -> Seq<char> {
    let a = lead_end(s, 0);
    if a >= s.len() {
        Seq::empty()
    } else {
        s.subrange(a, trail_end(s, s.len() as int))
    }
}

proof fn lemma_trail_end(s: Seq<char>, j: int, a: int)
    requires
        0 <= a < j <= s.len(),
        !is_ws(s[a]),
    ensures
        a < trail_end(s, j) <= j,
    decreases j,
{
    if is_ws(s[j - 1]) {
        lemma_trail_end(s, j - 1, a);
    }
}

/// `str::trim` on characters.
pub fn trim_chars(s: &[char]) -> (r: Vec<char>)
    ensures
        r@ == trim(s@),
{
    let n = s.len();
    let mut a: usize = 0;
    while a < n && is_whitespace(s[a])
        invariant
            a <= n,
            n == s@.len(),
            lead_end(s@, a as int) == lead_end(s@, 0),
        decreases n - a,
    {
        a = a + 1;
    }
    let mut r: Vec<char> = Vec::new();
    if a >= n {
        return r;
    }
    proof {
        lemma_trail_end(s@, n as int, a as int);
    }
    let mut b: usize = n;
    while b > a && is_whitespace(s[b - 1])
        invariant
            a < n,
            a < b <= n,
            n == s@.len(),
            !is_ws(s@[a as int]),
            trail_end(s@, b as int) == trail_end(s@, n as int),
        decreases b,
    {
        b = b - 1;
    }
    assert(trail_end(s@, b as int) == b);
    assert(lead_end(s@, a as int) == a);
    let mut k: usize = a;
    while k < b
        invariant
            a <= k <= b <= n,
            n == s@.len(),
            r@ == s@.subrange(a as int, k as int),
        decreases b - k,
    {
        r.push(s[k]);
        k = k + 1;
    }
    r
}

/// The decimal digit for `d < 10`.
pub open spec fn digit_char(d: nat) -> char {
    (48 + d) as char
}

/// Decimal representation of a natural number, without leading zeros.
pub open spec fn decimal(n: nat) -> Seq<char>
    decreases n,
{
    if n < 10 {
        seq![digit_char(n)]
    } else {
        decimal(n / 10).push(digit_char(n % 10))
    }
}

fn digit_of(d: u128) -> (c: char)
    requires
        d < 10,
    ensures
        c == digit_char(d as nat),
{
    let b: u8 = 48 + d as u8;
    b as char
}

/// Appends the decimal representation of `n`.
pub fn push_decimal(n: u128, out: &mut Vec<char>)
    ensures
        final(out)@ == old(out)@ + decimal(n as nat),
    decreases n,
{
    if n >= 10 {
        push_decimal(n / 10, out);
    }
    out.push(digit_of(n % 10));
}

/// Numeric value of a run of ASCII digits.
pub open spec fn digits_value(s: Seq<char>) -> nat
    decreases s.len(),
{
    if s.len() == 0 {
        0
    } else {
        digits_value(s.drop_last()) * 10 + digit_value(s.last())
    }
}

/// The characters with a trailing `'\r'` removed, if there is one.
pub open spec fn strip_cr(s: Seq<char>) -> Seq<char> {
    if s.len() > 0 && s.last() == '\r' {
        s.drop_last()
    } else {
        s
    }
}

/// `str::lines` from position `i` on, the current line having begun at `start`.
pub open spec fn lines_from(s: Seq<char>, start: int, i: int) -> Seq<Seq<char>>
    decreases s.len() - i,
{
    if i >= s.len() {
        if start < s.len() {
            seq![s.subrange(start, s.len() as int)]
        } else {
            Seq::empty()
        }
    } else if s[i] == '\n' {
        seq![strip_cr(s.subrange(start, i))] + lines_from(s, i + 1, i + 1)
    } else {
        lines_from(s, start, i + 1)
    }
}

/// `str::lines`: the text cut at each `'\n'` (a `"\r\n"` ending loses its
/// `'\r'`); a final line ending adds no empty line.
pub open spec fn lines_of(s: Seq<char>) -> Seq<Seq<char>> {
    lines_from(s, 0, 0)
}

/// `str::split_inclusive('\n')` from position `i` on.
pub open spec fn pieces_from(s: Seq<char>, start: int, i: int) -> Seq<Seq<char>>
    decreases s.len() - i,
{
    if i >= s.len() {
        if start < s.len() {
            seq![s.subrange(start, s.len() as int)]
        } else {
            Seq::empty()
        }
    } else if s[i] == '\n' {
        seq![s.subrange(start, i + 1)] + pieces_from(s, i + 1, i + 1)
    } else {
        pieces_from(s, start, i + 1)
    }
}

/// `str::split_inclusive('\n')`: the text cut after each `'\n'`.
pub open spec fn pieces_of(s: Seq<char>) -> Seq<Seq<char>> {
    pieces_from(s, 0, 0)
}

fn copy_range(s: &[char], a: usize, b: usize) -> (r: Vec<char>)
    requires
        a <= b <= s@.len(),
    ensures
        r@ == s@.subrange(a as int, b as int),
{
    let mut r: Vec<char> = Vec::new();
    let mut k = a;
    while k < b
        invariant
            a <= k <= b <= s@.len(),
            r@ == s@.subrange(a as int, k as int),
        decreases b - k,
    {
        r.push(s[k]);
        k = k + 1;
    }
    r
}

/// `str::lines` on characters.
pub fn split_lines(s: &[char]) -> (r: Vec<Vec<char>>)
    ensures
        r@.map_values(|v: Vec<char>| v@) == lines_of(s@),
{
    let n = s.len();
    let mut r: Vec<Vec<char>> = Vec::new();
    let mut start: usize = 0;
    let mut i: usize = 0;
    while i < n
        invariant
            start <= i <= n,
            n == s@.len(),
            r@.map_values(|v: Vec<char>| v@) + lines_from(s@, start as int, i as int) == lines_of(
                s@,
            ),
        decreases n - i,
    {
        if s[i] == '\n' {
            let mut line = copy_range(s, start, i);
            if line.len() > 0 && line[line.len() - 1] == '\r' {
                line.pop();
            }
            let ghost before = r@.map_values(|v: Vec<char>| v@);
            r.push(line);
            assert(r@.map_values(|v: Vec<char>| v@) == before.push(line@));
            assert(before.push(line@) + lines_from(s@, i + 1, i + 1) == before + lines_from(
                s@,
                start as int,
                i as int,
            ));
            start = i + 1;
        }
        i = i + 1;
    }
    if start < n {
        let line = copy_range(s, start, n);
        let ghost before = r@.map_values(|v: Vec<char>| v@);
        r.push(line);
        assert(r@.map_values(|v: Vec<char>| v@) == before.push(line@));
    }
    assert(r@.map_values(|v: Vec<char>| v@) =~= lines_of(s@));
    r
}

/// `str::split_inclusive('\n')` on characters.
pub fn split_inclusive_newline(s: &[char]) -> (r: Vec<Vec<char>>)
    ensures
        r@.map_values(|v: Vec<char>| v@) == pieces_of(s@),
{
    let n = s.len();
    let mut r: Vec<Vec<char>> = Vec::new();
    let mut start: usize = 0;
    let mut i: usize = 0;
    while i < n
        invariant
            start <= i <= n,
            n == s@.len(),
            r@.map_values(|v: Vec<char>| v@) + pieces_from(s@, start as int, i as int)
                == pieces_of(s@),
        decreases n - i,
    {
        if s[i] == '\n' {
            let line = copy_range(s, start, i + 1);
            let ghost before = r@.map_values(|v: Vec<char>| v@);
            r.push(line);
            assert(r@.map_values(|v: Vec<char>| v@) == before.push(line@));
            assert(before.push(line@) + pieces_from(s@, i + 1, i + 1) == before + pieces_from(
                s@,
                start as int,
                i as int,
            ));
            start = i + 1;
        }
        i = i + 1;
    }
    if start < n {
        let line = copy_range(s, start, n);
        let ghost before = r@.map_values(|v: Vec<char>| v@);
        r.push(line);
        assert(r@.map_values(|v: Vec<char>| v@) == before.push(line@));
    }
    assert(r@.map_values(|v: Vec<char>| v@) =~= pieces_of(s@));
    r
}

/// The text with every trailing `'\n'` removed (`trim_end_matches('\n')`).
pub open spec fn trim_newlines(s: Seq<char>) -> Seq<char>
    decreases s.len(),
{
    if s.len() > 0 && s.last() == '\n' {
        trim_newlines(s.drop_last())
    } else {
        s
    }
}

pub fn trim_newlines_chars(s: &[char]) -> (r: Vec<char>)
    ensures
        r@ == trim_newlines(s@),
{
    let mut e = s.len();
    assert(s@.subrange(0, e as int) =~= s@);
    while e > 0 && s[e - 1] == '\n'
        invariant
            e <= s@.len(),
            trim_newlines(s@.subrange(0, e as int)) == trim_newlines(s@),
        decreases e,
    {
        assert(s@.subrange(0, e - 1) =~= s@.subrange(0, e as int).drop_last());
        e = e - 1;
    }
    let mut r: Vec<char> = Vec::new();
    let mut k: usize = 0;
    while k < e
        invariant
            k <= e <= s@.len(),
            r@ == s@.subrange(0, k as int),
        decreases e - k,
    {
        r.push(s[k]);
        k = k + 1;
        assert(r@ =~= s@.subrange(0, k as int));
    }
    r
}

/// The lines written one after another.
pub open spec fn concat(lines: Seq<Seq<char>>) -> Seq<char>
    decreases lines.len(),
{
    if lines.len() == 0 {
        Seq::empty()
    } else {
        concat(lines.drop_last()) + lines.last()
    }
}

} // verus!
