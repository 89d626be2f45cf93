//! The command language, stated as spec functions over the characters of
//! an input line and a position in it. Where the parser would not return
//! (an integer overflow, an endless loop), the spec gives `None`.
use vstd::prelude::*;
use crate::state::{AddressV, ErrKind, KindV, LineV, MlcV, CommandV};
use crate::text::{is_ws, is_ascii_ws, is_ctrl, is_digit, char_is_numeric, digits_value, decimal};

verus! {

/// First position at or after `p` that does not hold whitespace.
pub open spec fn skip_ws(s: Seq<char>, p: int) -> int
    decreases s.len() - p,
{
    if 0 <= p < s.len() && is_ws(s[p]) {
        skip_ws(s, p + 1)
    } else {
        p
    }
}

/// First position at or after `p` that does not hold ASCII whitespace.
pub open spec fn skip_ascii_ws(s: Seq<char>, p: int) -> int
    decreases s.len() - p,
{
    if 0 <= p < s.len() && is_ascii_ws(s[p]) {
        skip_ascii_ws(s, p + 1)
    } else {
        p
    }
}

/// End of the run of ASCII digits that starts at `p`.
pub open spec fn digits_end(s: Seq<char>, p: int) -> int
    decreases s.len() - p,
{
    if 0 <= p < s.len() && is_digit(s[p]) {
        digits_end(s, p + 1)
    } else {
        p
    }
}

/// First position at or after `p` holding `'\n'`, or the end.
pub open spec fn newline_at_or_after(s: Seq<char>, p: int) -> int
    decreases s.len() - p,
{
    if 0 <= p < s.len() && s[p] != '\n' {
        newline_at_or_after(s, p + 1)
    } else {
        p
    }
}

pub proof fn lemma_skip_ws(s: Seq<char>, p: int)
    requires
        0 <= p <= s.len(),
    ensures
        p <= skip_ws(s, p) <= s.len(),
    decreases s.len() - p,
{
    if p < s.len() && is_ws(s[p]) {
        lemma_skip_ws(s, p + 1);
    }
}

pub proof fn lemma_skip_ascii_ws(s: Seq<char>, p: int)
    requires
        0 <= p <= s.len(),
    ensures
        p <= skip_ascii_ws(s, p) <= s.len(),
    decreases s.len() - p,
{
    if p < s.len() && is_ascii_ws(s[p]) {
        lemma_skip_ascii_ws(s, p + 1);
    }
}

pub proof fn lemma_digits_end(s: Seq<char>, p: int)
    requires
        0 <= p <= s.len(),
    ensures
        p <= digits_end(s, p) <= s.len(),
        forall|k: int| p <= k < digits_end(s, p) ==> is_digit(#[trigger] s[k]),
    decreases s.len() - p,
{
    if p < s.len() && is_digit(s[p]) {
        lemma_digits_end(s, p + 1);
    }
}

pub proof fn lemma_newline(s: Seq<char>, p: int)
    requires
        0 <= p <= s.len(),
    ensures
        p <= newline_at_or_after(s, p) <= s.len(),
        newline_at_or_after(s, p) < s.len() ==> s[newline_at_or_after(s, p)] == '\n',
    decreases s.len() - p,
{
    if p < s.len() && s[p] != '\n' {
        lemma_newline(s, p + 1);
    }
}

/// A number as `parse_number` reads it: whitespace, then ASCII digits whose
/// value must fit a `usize`. The position is past the digits either way.
pub open spec fn number_at(s: Seq<char>, p: int) -> (Option<usize>, int) {
    let q = skip_ws(s, p);
    let e = digits_end(s, q);
    let v = digits_value(s.subrange(q, e));
    (
        if e > q && v <= usize::MAX {
            Some(v as usize)
        } else {
            None
        },
        e,
    )
}

pub proof fn lemma_number_at(s: Seq<char>, p: int)
    requires
        0 <= p <= s.len(),
    ensures
        p <= number_at(s, p).1 <= s.len(),
        number_at(s, p).0 is Some ==> number_at(s, p).1 > p,
{
    lemma_skip_ws(s, p);
    lemma_digits_end(s, skip_ws(s, p));
}

/// The value an offset term adds: a number read as `isize`, or `default`.
pub open spec fn term_value(n: Option<usize>, default: int) -> int {
    match n {
        Some(v) => (v as isize) as int,
        None => default,
    }
}

pub open spec fn fits_isize(v: int) -> bool {
    isize::MIN <= v <= isize::MAX
}

/// The sum of the offset terms (`+n`, `-n`, `+`, `-`, `n`) from `p` on,
/// added to `acc`, and the position after them; `None` where the parser
/// overflows or loops forever (a numeric character that is no ASCII digit).
pub open spec fn offset_from(s: Seq<char>, p: int, acc: int) -> Option<(isize, int)>
    decreases s.len() - p,
{
    if p < 0 || p > s.len() {
        None
    } else {
        let q = skip_ws(s, p);
        proof {
            lemma_skip_ws(s, p);
        }
        if q < s.len() && (s[q] == '+' || s[q] == '-') {
            let (n, e) = number_at(s, q + 1);
            proof {
                lemma_number_at(s, q + 1);
            }
            let next = if s[q] == '+' {
                acc + term_value(n, 1)
            } else {
                acc - term_value(n, 1)
            };
            if fits_isize(next) {
                offset_from(s, e, next)
            } else {
                None
            }
        } else if q < s.len() && char_is_numeric(s[q]) {
            if is_digit(s[q]) {
                let (n, e) = number_at(s, q);
                proof {
                    lemma_number_at(s, q);
                    assert(skip_ws(s, q) == q);
                    lemma_digits_end(s, q + 1);
                }
                let next = acc + term_value(n, 0);
                if fits_isize(next) {
                    offset_from(s, e, next)
                } else {
                    None
                }
            } else {
                None
            }
        } else if fits_isize(acc) {
            Some((acc as isize, q))
        } else {
            None
        }
    }
}

/// The text of a regular expression address up to delimiter `d` (an escaped
/// delimiter stands for itself; another backslash is kept), and the
/// position of the delimiter or of the end.
pub open spec fn delim_scan(s: Seq<char>, i: int, d: char) -> (Seq<char>, int)
    decreases s.len() - i,
{
    if i < 0 || i >= s.len() {
        (Seq::empty(), i)
    } else if s[i] == '\\' {
        if i + 1 < s.len() && s[i + 1] == d {
            let (r, e) = delim_scan(s, i + 2, d);
            (seq![d] + r, e)
        } else {
            let (r, e) = delim_scan(s, i + 1, d);
            (seq!['\\'] + r, e)
        }
    } else if s[i] == d {
        (Seq::empty(), i)
    } else {
        let (r, e) = delim_scan(s, i + 1, d);
        (seq![s[i]] + r, e)
    }
}

pub proof fn lemma_delim_scan(s: Seq<char>, i: int, d: char)
    requires
        0 <= i <= s.len(),
    ensures
        i <= delim_scan(s, i, d).1 <= s.len(),
        delim_scan(s, i, d).1 < s.len() ==> s[delim_scan(s, i, d).1] == d,
    decreases s.len() - i,
{
    if i < s.len() {
        if s[i] == '\\' {
            if i + 1 < s.len() && s[i + 1] == d {
                lemma_delim_scan(s, i + 2, d);
            } else {
                lemma_delim_scan(s, i + 1, d);
            }
        } else if s[i] != d {
            lemma_delim_scan(s, i + 1, d);
        }
    }
}

/// A regular expression address delimited by `d`, with its offset.
pub open spec fn regex_line_at(s: Seq<char>, q: int, d: char) -> Option<(Seq<char>, isize, int)> {
    let (r, e) = delim_scan(s, q + 1, d);
    if e < s.len() {
        match offset_from(s, e + 1, 0) {
            Some((o, e2)) => Some((r, o, e2)),
            None => None,
        }
    } else {
        Some((r, 0, e))
    }
}

/// One line address from `p` on (`None` inside when there is none), and the
/// position after it; `None` where the parser would not return.
pub open spec fn line_at(s: Seq<char>, p: int) -> Option<(Option<LineV>, int)> {
    let q = skip_ws(s, p);
    if q < 0 || q >= s.len() {
        Some((None, q))
    } else {
        let c = s[q];
        if c == '.' || c == '$' {
            match offset_from(s, q + 1, 0) {
                Some((o, e)) => Some(
                    (
                        Some(
                            if c == '.' {
                                LineV::Current(o)
                            } else {
                                LineV::Last(o)
                            },
                        ),
                        e,
                    ),
                ),
                None => None,
            }
        } else if c == '+' || c == '-' {
            match offset_from(s, q, 0) {
                Some((o, e)) => Some((Some(LineV::Offset(o)), e)),
                None => None,
            }
        } else if is_digit(c) {
            let (n, e) = number_at(s, q);
            match n {
                None => None,
                Some(v) => match offset_from(s, e, 0) {
                    Some((o, e2)) => Some((Some(LineV::Absolute(v, o)), e2)),
                    None => None,
                },
            }
        } else if c == '/' || c == '?' {
            match regex_line_at(s, q, c) {
                Some((r, o, e)) => Some(
                    (
                        Some(
                            if c == '/' {
                                LineV::Regex(r, o)
                            } else {
                                LineV::RegexBackward(r, o)
                            },
                        ),
                        e,
                    ),
                ),
                None => None,
            }
        } else {
            Some((None, q))
        }
    }
}

/// The address of a command line from `p` on, and the position after it.
pub open spec fn address_at(s: Seq<char>, p: int) -> Option<(AddressV, int)> {
    let q = skip_ws(s, p);
    if 0 <= q < s.len() && s[q] == '%' {
        match offset_from(s, q + 1, 0) {
            Some((o, e)) => Some((AddressV::Range(LineV::First(o), LineV::Last(o)), e)),
            None => None,
        }
    } else {
        match line_at(s, q) {
            None => None,
            Some((first, q1)) => if 0 <= q1 < s.len() && (s[q1] == ',' || s[q1] == ';') {
                let comma = s[q1] == ',';
                match line_at(s, q1 + 1) {
                    None => None,
                    Some((second, q2)) => {
                        let (a, b) = match (first, second) {
                            (Some(a), Some(b)) => (a, b),
                            (Some(a), None) => (a, a),
                            (None, Some(b)) => (
                                if comma {
                                    LineV::First(0)
                                } else {
                                    LineV::Current(0)
                                },
                                b,
                            ),
                            (None, None) => (
                                if comma {
                                    LineV::First(0)
                                } else {
                                    LineV::Current(0)
                                },
                                LineV::Last(0),
                            ),
                        };
                        Some(
                            (
                                if comma {
                                    AddressV::Range(a, b)
                                } else {
                                    AddressV::RangeSemicolon(a, b)
                                },
                                q2,
                            ),
                        )
                    },
                }
            } else {
                Some(
                    (
                        match first {
                            Some(a) => AddressV::Single(a),
                            None => AddressV::Absent,
                        },
                        q1,
                    ),
                )
            },
        }
    }
}

/// The file name after `w`, `e`, `r` or `f`: it must be set off by a blank
/// or a control character; blanks are skipped and the rest of the line up
/// to a newline is the name (none if empty).
pub open spec fn filename_at(s: Seq<char>, p: int) -> Result<(Option<Seq<char>>, int), ErrKind> {
    if 0 <= p < s.len() && (is_ws(s[p]) || is_ctrl(s[p])) {
        let q = skip_ws(s, p);
        let e = newline_at_or_after(s, q);
        let name = s.subrange(q, e);
        Ok(
            (
                if name.len() == 0 {
                    None
                } else {
                    Some(name)
                },
                if e < s.len() {
                    e + 1
                } else {
                    e
                },
            ),
        )
    } else {
        Err(ErrKind::SuffixUnsuported)
    }
}

/// The print command a suffix character names.
pub open spec fn suffix_char(c: char) -> Option<KindV> {
    if c == 'l' {
        Some(KindV::List)
    } else if c == 'n' {
        Some(KindV::NumberedList)
    } else if c == 'p' {
        Some(KindV::PrintList)
    } else {
        None
    }
}

/// A print suffix at `p`.
pub open spec fn suffix_at(s: Seq<char>, p: int) -> Result<(KindV, int), ErrKind> {
    if p < 0 || p >= s.len() {
        Err(ErrKind::EndOfInput)
    } else {
        match suffix_char(s[p]) {
            Some(k) => Ok((k, p + 1)),
            None => Err(ErrKind::UnknownCommand),
        }
    }
}

/// The flag after a replacement: none unless the separator follows; then a
/// number (as its decimal text), `g`, or the default flag `de`.
pub open spec fn flag_at(s: Seq<char>, p: int, sep: char) -> (Option<Seq<char>>, int) {
    if 0 <= p < s.len() && s[p] == sep {
        let q = p + 1;
        if q >= s.len() {
            (None, q)
        } else if char_is_numeric(s[q]) {
            let (n, e) = number_at(s, q);
            (
                match n {
                    Some(v) => Some(decimal(v as nat)),
                    None => None,
                },
                e,
            )
        } else if s[q] == 'g' {
            (Some(seq!['g']), q + 1)
        } else {
            (Some(seq!['d', 'e']), q)
        }
    } else {
        (None, p)
    }
}

/// The regular expression of a substitution up to separator `sep`: an
/// escaped separator or backslash stands for itself; a backslash before
/// anything else is kept and the character after it dropped. The scan also
/// stops at a newline that ends the line.
pub open spec fn re_scan(s: Seq<char>, i: int, sep: char) -> (Seq<char>, int)
    decreases s.len() - i,
{
    if i < 0 || i >= s.len() {
        (Seq::empty(), i)
    } else if s[i] == '\\' {
        if i + 1 < s.len() {
            let (r, e) = re_scan(s, i + 2, sep);
            (
                seq![
                    if s[i + 1] == sep {
                        sep
                    } else {
                        '\\'
                    },
                ] + r,
                e,
            )
        } else {
            (seq!['\\'], i + 1)
        }
    } else if s[i] == sep || (s[i] == '\n' && i + 1 == s.len()) {
        (Seq::empty(), i)
    } else {
        let (r, e) = re_scan(s, i + 1, sep);
        (seq![s[i]] + r, e)
    }
}

/// The replacement of a substitution up to the separator or a control
/// character; a backslash is kept and does not escape what follows, except
/// that a backslash before a newline continues the replacement on the next
/// input line (the `bool`).
pub open spec fn sub_scan(s: Seq<char>, i: int, sep: char) -> (Seq<char>, int, bool)
    decreases s.len() - i,
{
    if i < 0 || i >= s.len() {
        (Seq::empty(), i, false)
    } else if s[i] == '\\' {
        if i + 1 < s.len() {
            if s[i + 1] == '\n' {
                (seq!['\n'], i + 1, true)
            } else {
                let (r, e, m) = sub_scan(s, i + 1, sep);
                (seq!['\\'] + r, e, m)
            }
        } else {
            (seq!['\\'], i + 1, false)
        }
    } else if s[i] == sep || is_ctrl(s[i]) {
        (Seq::empty(), i, false)
    } else {
        let (r, e, m) = sub_scan(s, i + 1, sep);
        (seq![s[i]] + r, e, m)
    }
}

/// A full substitution `s/re/sub/flag` after the command letter.
pub enum FullSubsV {
    Continued(MlcV),
    Complete(Option<Seq<char>>, Seq<char>, Option<Seq<char>>, int),
}

pub open spec fn nonempty(r: Seq<char>) -> Option<Seq<char>> {
    if r.len() == 0 {
        None
    } else {
        Some(r)
    }
}

pub open spec fn full_subs_at(s: Seq<char>, p: int) -> Result<FullSubsV, ErrKind> {
    if p < 0 || p >= s.len() {
        Err(ErrKind::EndOfInput)
    } else if is_ws(s[p]) {
        Err(ErrKind::InvalidInput)
    } else {
        let sep = s[p];
        let (re, e) = re_scan(s, p + 1, sep);
        if e < s.len() && s[e] == sep {
            let (sub, e2, more) = sub_scan(s, e + 1, sep);
            if more {
                Ok(
                    FullSubsV::Continued(
                        MlcV {
                            re: nonempty(re),
                            sub: seq![sub],
                            flag: None,
                            suffix: None,
                            separator: sep,
                            is_done: false,
                        },
                    ),
                )
            } else {
                let (flag, e3) = flag_at(s, e2, sep);
                Ok(FullSubsV::Complete(nonempty(re), sub, flag, e3))
            }
        } else if re.len() > 0 && e >= s.len() - 1 {
            Ok(FullSubsV::Complete(Some(re), Seq::empty(), None, e))
        } else {
            Err(ErrKind::EndOfInput)
        }
    }
}

/// The short form `s[n|g][l|n|p]` that repeats the last substitution.
pub open spec fn short_subs_at(s: Seq<char>, p: int) -> Result<(KindV, Option<KindV>), ErrKind> {
    let first: Result<(Option<Seq<char>>, Option<KindV>, int), ErrKind> = if p < 0 || p >= s.len()
        || s[p] == '\n' {
        Ok((None, None, p))
    } else if is_ascii_ws(s[p]) {
        Err(ErrKind::InvalidInput)
    } else if is_digit(s[p]) {
        Ok((Some(s.subrange(p, digits_end(s, p))), None, digits_end(s, p)))
    } else if s[p] == 'g' {
        Ok((Some(seq!['g']), None, p + 1))
    } else if suffix_char(s[p]) is Some {
        Ok((None, suffix_char(s[p]), p + 1))
    } else {
        Err(ErrKind::UnknownCommand)
    };
    match first {
        Err(k) => Err(k),
        Ok((flag, suffix, q)) => {
            let (suffix2, q2) = if suffix is None && 0 <= q < s.len() && suffix_char(s[q]) is Some {
                (suffix_char(s[q]), q + 1)
            } else {
                (suffix, q)
            };
            if skip_ascii_ws(s, q2) < s.len() {
                Err(ErrKind::UnknownCommand)
            } else {
                Ok(
                    (
                        KindV::Substitution {
                            re: None,
                            sub: Seq::empty(),
                            flag,
                            repeated: true,
                        },
                        suffix2,
                    ),
                )
            }
        },
    }
}

/// The command letter at `p` and what it takes, without a suffix.
pub open spec fn letter_at(s: Seq<char>, q: int) -> Option<Result<(KindV, int), ErrKind>> {
    let c = if 0 <= q < s.len() {
        s[q]
    } else {
        '\n'
    };
    let q1 = if 0 <= q < s.len() {
        q + 1
    } else {
        q
    };
    if c == 'q' {
        Some(Ok((KindV::Quit, q1)))
    } else if c == 'a' {
        Some(Ok((KindV::Append, q1)))
    } else if c == 'c' {
        Some(Ok((KindV::Change, q1)))
    } else if c == 'i' {
        Some(Ok((KindV::Insert, q1)))
    } else if c == 'm' || c == 't' {
        match address_at(s, q1) {
            None => None,
            Some((a, e)) => Some(
                Ok(
                    (
                        if c == 'm' {
                            KindV::Move(a)
                        } else {
                            KindV::Transfer(a)
                        },
                        e,
                    ),
                ),
            ),
        }
    } else if c == 'j' {
        Some(Ok((KindV::Join, q1)))
    } else if c == 'y' {
        Some(Ok((KindV::Yank, q1)))
    } else if c == 'x' {
        Some(Ok((KindV::Put, q1)))
    } else if c == 'l' {
        Some(Ok((KindV::List, q1)))
    } else if c == 'n' {
        Some(Ok((KindV::NumberedList, q1)))
    } else if c == 'p' {
        Some(Ok((KindV::PrintList, q1)))
    } else if c == 'd' {
        Some(Ok((KindV::Delete, q1)))
    } else if c == 'u' {
        Some(Ok((KindV::Undo, q1)))
    } else if c == 'w' || c == 'e' || c == 'r' || c == 'f' {
        match filename_at(s, q1) {
            Err(k) => Some(Err(k)),
            Ok((n, e)) => Some(
                Ok(
                    (
                        if c == 'w' {
                            KindV::Write(n)
                        } else if c == 'e' {
                            KindV::Edit(n)
                        } else if c == 'r' {
                            KindV::Read(n)
                        } else {
                            KindV::File(n)
                        },
                        e,
                    ),
                ),
            ),
        }
    } else if is_ascii_ws(c) {
        Some(Ok((KindV::InternalListLastAffectedLine, q1)))
    } else {
        Some(Err(ErrKind::UnknownCommand))
    }
}

/// A command and its suffix, where `e` is the position after the command.
pub open spec fn with_suffix(s: Seq<char>, k: KindV, e: int) -> Result<(KindV, Option<KindV>), ErrKind> {
    if 0 <= e < s.len() && !is_ascii_ws(s[e]) {
        match suffix_at(s, e) {
            Ok((x, _)) => Ok((k, Some(x))),
            Err(err) => Err(err),
        }
    } else {
        Ok((k, None))
    }
}

/// The command part of a line from `p` on: the command and its suffix.
pub open spec fn command_at(s: Seq<char>, p: int) -> Option<Result<(KindV, Option<KindV>), ErrKind>> {
    let q = skip_ws(s, p);
    if 0 <= q < s.len() && s[q] == 's' {
        match full_subs_at(s, q + 1) {
            Ok(FullSubsV::Continued(m)) => Some(Ok((KindV::MultiLineCommand(m), None))),
            Ok(FullSubsV::Complete(re, sub, flag, e)) => Some(
                with_suffix(
                    s,
                    KindV::Substitution { re, sub: seq![sub], flag, repeated: false },
                    e,
                ),
            ),
            Err(_) => Some(short_subs_at(s, q + 1)),
        }
    } else {
        match letter_at(s, q) {
            None => None,
            Some(Err(k)) => Some(Err(k)),
            Some(Ok((k, e))) => Some(with_suffix(s, k, e)),
        }
    }
}

/// A pending substitution with a continuation line's replacement text and
/// flag taken in, and the position after them.
pub open spec fn continued(m: MlcV, s: Seq<char>) -> (MlcV, int) {
    let (sub, e, more) = sub_scan(s, 0, '/');
    let (flag, e2) = flag_at(s, e, m.separator);
    (MlcV { sub: m.sub.push(sub), flag, is_done: !more, ..m }, e2)
}

/// A continuation line of a pending substitution: its replacement text (up
/// to `'/'`, whatever the separator) is added, its flag replaces the flag,
/// and a suffix may follow.
pub open spec fn continue_subs(m: MlcV, s: Seq<char>) -> Result<MlcV, ErrKind> {
    let (m2, e2) = continued(m, s);
    if 0 <= e2 < s.len() && !is_ascii_ws(s[e2]) {
        match suffix_at(s, e2) {
            Ok((k, _)) => Ok(MlcV { suffix: Some(Box::new(k)), ..m2 }),
            Err(err) => Err(err),
        }
    } else {
        Ok(m2)
    }
}

/// The command a line parses to, given the substitution that may be pending
/// together with its address, and the pending substitution afterwards.
/// `None` where the parser would not return.
pub open spec fn parse_line(pending: Option<(MlcV, AddressV)>, s: Seq<char>) -> Option<
    (Result<CommandV, ErrKind>, Option<(MlcV, AddressV)>),
> {
    match pending {
        Some((m, a)) => match continue_subs(m, s) {
            Err(k) => Some((Err(k), None)),
            Ok(m2) => if m2.is_done {
                Some(
                    (
                        Ok(
                            CommandV {
                                address: a,
                                kind: KindV::Substitution {
                                    re: m2.re,
                                    sub: m2.sub,
                                    flag: m2.flag,
                                    repeated: false,
                                },
                                suffix: match m2.suffix {
                                    Some(b) => Some(*b),
                                    None => None,
                                },
                            },
                        ),
                        None,
                    ),
                )
            } else {
                Some(
                    (
                        Ok(CommandV { address: AddressV::Absent, kind: KindV::NoOp, suffix: None }),
                        Some((m2, a)),
                    ),
                )
            },
        },
        None => match address_at(s, 0) {
            None => None,
            Some((a, e)) => match command_at(s, e) {
                None => None,
                Some(Err(k)) => Some((Err(k), None)),
                Some(Ok((kind, suffix))) => if kind is InternalListLastAffectedLine && a
                    is Absent {
                    Some((Err(ErrKind::UnknownCommand), None))
                } else if kind is MultiLineCommand {
                    Some(
                        (
                            Ok(
                                CommandV {
                                    address: AddressV::Absent,
                                    kind: KindV::NoOp,
                                    suffix: None,
                                },
                            ),
                            Some((kind->MultiLineCommand_0, a)),
                        ),
                    )
                } else {
                    Some((Ok(CommandV { address: a, kind, suffix }), None))
                },
            },
        },
    }
}

} // verus!
