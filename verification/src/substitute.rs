//! What a substitution makes of one line: its replacement expanded for each
//! match, and the line rebuilt around the matches it replaces.
use vstd::prelude::*;
use crate::pattern::{
    Pattern, captures, split, regex_captures, regex_split, whole_match, rejoin, captures_view,
    groups_view,
};
use crate::state::strs;
use crate::text::{is_digit, digit_value, digits_value, chars_of, string_from_chars};

verus! {

/// The text of capture group `g`, empty where the group took no part.
pub open spec fn group_text(groups: Seq<Option<Seq<char>>>, g: int) -> Seq<char> {
    if 0 <= g < groups.len() && groups[g] is Some {
        groups[g]->0
    } else {
        Seq::empty()
    }
}

/// A replacement part from position `i` on, for one match: `&` is the whole
/// match, `\1` to `\9` a group, `\&` an ampersand, a backslash before any
/// other character that character, and a final backslash itself.
pub open spec fn expand_from(part: Seq<char>, groups: Seq<Option<Seq<char>>>, i: int) -> Seq<char>
    decreases part.len() - i,
{
    if i < 0 || i >= part.len() {
        Seq::empty()
    } else if part[i] == '&' {
        whole_match(groups) + expand_from(part, groups, i + 1)
    } else if part[i] == '\\' {
        if i + 1 >= part.len() {
            seq!['\\']
        } else {
            let d = part[i + 1];
            (if d == '&' {
                seq!['&']
            } else if '1' <= d && d <= '9' {
                group_text(groups, (d as u32 - 48) as int)
            } else {
                seq![d]
            }) + expand_from(part, groups, i + 2)
        }
    } else {
        seq![part[i]] + expand_from(part, groups, i + 1)
    }
}

/// The replacement for one match: its parts expanded one after another.
pub open spec fn expand(parts: Seq<Seq<char>>, groups: Seq<Option<Seq<char>>>) -> Seq<char>
    decreases parts.len(),
{
    if parts.len() == 0 {
        Seq::empty()
    } else {
        expand(parts.drop_last(), groups) + expand_from(parts.last(), groups, 0)
    }
}

/// The line up to piece `j`: pieces and matches unchanged, ending with
/// piece `j` (`pieces[0] + match[0] + ... + pieces[j]`).
pub open spec fn prefix_join(
    pieces: Seq<Seq<char>>,
    caps: Seq<Seq<Option<Seq<char>>>>,
    j: int,
) -> Seq<char>
    decreases j,
{
    if j <= 0 {
        pieces[0]
    } else {
        prefix_join(pieces, caps, j - 1) + whole_match(caps[j - 1]) + pieces[j]
    }
}

/// The first `j` pieces, each followed by the replacement of its match.
pub open spec fn replaced_join(
    pieces: Seq<Seq<char>>,
    caps: Seq<Seq<Option<Seq<char>>>>,
    parts: Seq<Seq<char>>,
    j: int,
) -> Seq<char>
    decreases j,
{
    if j <= 0 {
        Seq::empty()
    } else {
        replaced_join(pieces, caps, parts, j - 1) + pieces[j - 1] + expand(parts, caps[j - 1])
    }
}

/// A substituted line, given the pieces between the matches and the matches
/// of the line, and whether a match was replaced: every match if `global`;
/// else match `nth` (the first when `nth` is not positive), if there is one.
pub open spec fn substituted(
    line: Seq<char>,
    pieces: Seq<Seq<char>>,
    caps: Seq<Seq<Option<Seq<char>>>>,
    parts: Seq<Seq<char>>,
    nth: int,
    global: bool,
) -> (Seq<char>, bool) {
    let k = caps.len();
    if global {
        (replaced_join(pieces, caps, parts, k as int) + pieces[k as int], k > 0)
    } else {
        let n = if nth > 0 {
            nth
        } else {
            1
        };
        if k >= n {
            (
                prefix_join(pieces, caps, n - 1) + expand(parts, caps[n - 1]) + rejoin(
                    pieces,
                    caps,
                    n,
                ),
                true,
            )
        } else {
            (line, false)
        }
    }
}

/// Appends the characters of a text.
fn push_text(out: &mut Vec<char>, t: &str)
    ensures
        final(out)@ == old(out)@ + t@,
{
    let mut cs = chars_of(t);
    out.append(&mut cs);
}

/// Appends the text of group `g` of a match (nothing where it took no part).
fn push_group(out: &mut Vec<char>, groups: &Vec<Option<String>>, g: usize)
    ensures
        final(out)@ == old(out)@ + group_text(groups_view(*groups), g as int),
{
    if g < groups.len() {
        match &groups[g] {
            Some(t) => {
                push_text(out, t.as_str());
            },
            None => {
                assert(old(out)@ + Seq::<char>::empty() =~= old(out)@);
            },
        }
    } else {
        assert(old(out)@ + Seq::<char>::empty() =~= old(out)@);
    }
}

/// Appends one replacement part expanded for a match (see `expand_from`).
fn push_expanded_part(out: &mut Vec<char>, part: &String, groups: &Vec<Option<String>>)
    ensures
        final(out)@ == old(out)@ + expand_from(part@, groups_view(*groups), 0),
{
    let cs = chars_of(part.as_str());
    let n = cs.len();
    let ghost g = groups_view(*groups);
    let mut i: usize = 0;
    while i < n
        invariant
            n == cs@.len(),
            cs@ == part@,
            g == groups_view(*groups),
            i <= n,
            old(out)@ + expand_from(cs@, g, 0) == out@ + expand_from(cs@, g, i as int),
        decreases n - i,
    {
        let ghost before = out@;
        let c = cs[i];
        if c == '&' {
            push_group(out, groups, 0);
            assert(whole_match(g) == group_text(g, 0));
            assert(before + expand_from(cs@, g, i as int) =~= out@ + expand_from(
                cs@,
                g,
                i + 1,
            ));
            i = i + 1;
        } else if c == '\\' {
            if i + 1 >= n {
                out.push('\\');
                assert(expand_from(cs@, g, i + 1) =~= Seq::<char>::empty());
                assert(before + expand_from(cs@, g, i as int) =~= out@ + expand_from(
                    cs@,
                    g,
                    i + 1,
                ));
                i = i + 1;
            } else {
                let d = cs[i + 1];
                if d == '&' {
                    out.push('&');
                } else if '1' <= d && d <= '9' {
                    push_group(out, groups, (d as u32 - 48) as usize);
                } else {
                    out.push(d);
                }
                assert(before + expand_from(cs@, g, i as int) =~= out@ + expand_from(
                    cs@,
                    g,
                    i + 2,
                ));
                i = i + 2;
            }
        } else {
            out.push(c);
            assert(before + expand_from(cs@, g, i as int) =~= out@ + expand_from(
                cs@,
                g,
                i + 1,
            ));
            i = i + 1;
        }
    }
    assert(expand_from(cs@, g, n as int) =~= Seq::<char>::empty());
    assert(out@ + Seq::<char>::empty() =~= out@);
}

/// Appends the replacement for a match: every part expanded in turn.
fn push_replacement(out: &mut Vec<char>, parts: &Vec<String>, groups: &Vec<Option<String>>)
    ensures
        final(out)@ == old(out)@ + expand(strs(*parts), groups_view(*groups)),
{
    let ghost g = groups_view(*groups);
    let ghost ps = strs(*parts);
    let mut j: usize = 0;
    while j < parts.len()
        invariant
            j <= parts@.len(),
            g == groups_view(*groups),
            ps == strs(*parts),
            out@ == old(out)@ + expand(ps.take(j as int), g),
        decreases parts@.len() - j,
    {
        let ghost before = out@;
        push_expanded_part(out, &parts[j], groups);
        assert(ps.take(j + 1).drop_last() =~= ps.take(j as int));
        assert(ps.take(j + 1).last() == parts@[j as int]@);
        assert(out@ =~= old(out)@ + expand(ps.take(j + 1), g));
        j = j + 1;
    }
    assert(ps.take(j as int) =~= ps);
}

/// Appends the text of a whole match (group 0).
fn push_match(out: &mut Vec<char>, groups: &Vec<Option<String>>)
    ensures
        final(out)@ == old(out)@ + whole_match(groups_view(*groups)),
{
    push_group(out, groups, 0);
}

/// A line rebuilt from the pieces between its matches and the matches, with
/// the replacement put in for the match or matches that `nth` and `global`
/// select; also whether anything was replaced (see `substituted`).
pub fn rebuild_line(
    line: &str,
    pieces: &Vec<String>,
    caps: &Vec<Vec<Option<String>>>,
    parts: &Vec<String>,
    nth: i32,
    global: bool,
) -> (r: (String, bool))
    requires
        pieces@.len() == caps@.len() + 1,
    ensures
        (r.0@, r.1) == substituted(line@, strs(*pieces), captures_view(*caps), strs(*parts), nth as int, global),
{
    let ghost ps = strs(*pieces);
    let ghost cv = captures_view(*caps);
    let ghost sub = strs(*parts);
    let k = caps.len();
    let mut out: Vec<char> = Vec::new();
    if global {
        let mut j: usize = 0;
        while j < k
            invariant
                k == caps@.len(),
                pieces@.len() == k + 1,
                j <= k,
                ps == strs(*pieces),
                cv == captures_view(*caps),
                sub == strs(*parts),
                out@ == replaced_join(ps, cv, sub, j as int),
            decreases k - j,
        {
            push_text(&mut out, pieces[j].as_str());
            push_replacement(&mut out, parts, &caps[j]);
            assert(out@ =~= replaced_join(ps, cv, sub, j + 1));
            j = j + 1;
        }
        push_text(&mut out, pieces[k].as_str());
        return (string_from_chars(out.as_slice()), k > 0);
    }
    let n: usize = if nth > 0 {
        nth as usize
    } else {
        1
    };
    if k < n {
        let mut copy = String::new();
        copy.append(line);
        assert(copy@ =~= line@);
        return (copy, false);
    }
    push_text(&mut out, pieces[0].as_str());
    let mut j: usize = 1;
    while j < n
        invariant
            k == caps@.len(),
            pieces@.len() == k + 1,
            1 <= j <= n <= k,
            ps == strs(*pieces),
            cv == captures_view(*caps),
            out@ == prefix_join(ps, cv, j - 1),
        decreases n - j,
    {
        push_match(&mut out, &caps[j - 1]);
        push_text(&mut out, pieces[j].as_str());
        assert(out@ =~= prefix_join(ps, cv, j as int));
        j = j + 1;
    }
    push_replacement(&mut out, parts, &caps[n - 1]);
    let ghost head = out@;
    let mut i: usize = n;
    while i < k
        invariant
            k == caps@.len(),
            pieces@.len() == k + 1,
            n <= i <= k,
            ps == strs(*pieces),
            cv == captures_view(*caps),
            head + rejoin(ps, cv, n as int) == out@ + rejoin(ps, cv, i as int),
        decreases k - i,
    {
        let ghost before = out@;
        push_text(&mut out, pieces[i].as_str());
        push_match(&mut out, &caps[i]);
        assert(before + rejoin(ps, cv, i as int) =~= out@ + rejoin(ps, cv, i + 1));
        i = i + 1;
    }
    push_text(&mut out, pieces[k].as_str());
    assert(out@ =~= head + rejoin(ps, cv, n as int));
    (string_from_chars(out.as_slice()), true)
}

/// What a substitution makes of one line with the pattern: the pieces
/// between the matches and the matches come from the regex crate, and the
/// line is rebuilt from them by `rebuild_line`.
pub fn substitute_line(pat: &Pattern, line: &str, parts: &Vec<String>, nth: i32, global: bool) -> (r: (
    String,
    bool,
))
    ensures
        (r.0@, r.1) == substituted(
            line@,
            regex_split(pat@, line@),
            regex_captures(pat@, line@),
            strs(*parts),
            nth as int,
            global,
        ),
{
    let pieces = split(pat, line);
    let caps = captures(pat, line);
    rebuild_line(line, &pieces, &caps, parts, nth, global)
}

/// The number a substitution flag names: its value if it is all digits and
/// fits an `i32`, else 0.
pub open spec fn flag_number(f: Seq<char>) -> int {
    if f.len() > 0 && (forall|i: int| 0 <= i < f.len() ==> is_digit(#[trigger] f[i]))
        && digits_value(f) <= i32::MAX {
        digits_value(f) as int
    } else {
        0
    }
}

/// The number a flag names (see `flag_number`).
pub fn parse_flag_number(f: &str) -> (r: i32)
    ensures
        r as int == flag_number(f@),
{
    let chars = chars_of(f);
    let n = chars.len();
    if n == 0 {
        return 0;
    }
    let mut acc: i32 = 0;
    let mut i: usize = 0;
    while i < n
        invariant
            i <= n,
            n == chars@.len(),
            n > 0,
            chars@ == f@,
            forall|j: int| 0 <= j < i ==> is_digit(#[trigger] chars@[j]),
            acc as int == digits_value(chars@.subrange(0, i as int)),
            digits_value(chars@.subrange(0, i as int)) <= i32::MAX,
        decreases n - i,
    {
        let c = chars[i];
        let v = c as u32;
        if !(48 <= v && v <= 57) {
            assert(!is_digit(f@[i as int]));
            return 0;
        }
        let d = (v - 48) as i32;
        assert(chars@.subrange(0, i + 1).drop_last() =~= chars@.subrange(0, i as int));
        assert(digits_value(chars@.subrange(0, i + 1)) == digits_value(chars@.subrange(0, i as int))
            * 10 + digit_value(c));
        if acc > (i32::MAX - d) / 10 {
            proof {
                let a = acc as int;
                let dd = d as int;
                assert(a * 10 + dd > i32::MAX) by (nonlinear_arith)
                    requires
                        a > (i32::MAX - dd) / 10,
                        0 <= dd <= 9,
                ;
                if forall|j: int| 0 <= j < n ==> is_digit(#[trigger] chars@[j]) {
                    lemma_digits_value_grows(chars@, i as int + 1, n as int);
                    assert(chars@.subrange(0, n as int) =~= chars@);
                }
                assert(flag_number(f@) == 0);
            }
            return 0;
        }
        acc = acc * 10 + d;
        i = i + 1;
    }
    assert(chars@.subrange(0, n as int) =~= chars@);
    acc
}

/// A run of digits never has a smaller value than its prefixes.
proof fn lemma_digits_value_grows(s: Seq<char>, i: int, j: int)
    requires
        0 <= i <= j <= s.len(),
        forall|k: int| 0 <= k < s.len() ==> is_digit(#[trigger] s[k]),
    ensures
        digits_value(s.subrange(0, i)) <= digits_value(s.subrange(0, j)),
    decreases j - i,
{
    if i < j {
        lemma_digits_value_grows(s, i, j - 1);
        assert(s.subrange(0, j).drop_last() =~= s.subrange(0, j - 1));
    }
}

} // verus!
