//! Properties of the editor that hold across commands and calls.
use vstd::prelude::*;
use crate::buffer::{
    BufferV, span_ok, without, inserted, move_spec, join_spec, saved_text, search_index,
    search_line, first_match, sat_sub1, join_range, max,
};
use crate::pattern::{rejoin, whole_match};
use crate::pattern::{regex_compiles, regex_is_match, regex_split, regex_captures};
use crate::repl::{
    ReplV, PendingV, FileReplyV, SnapV, Change, snap_of, command_step, undo_step, quit_step, edit_step,
    list_step, relocate_step, subst_step, subst_lines, subst_finish, delete_step, join_step,
    put_step, finish_step, buf_delete, buf_range, buf_lines, yank_step, subs_plan, line_changes,
    apply_changes, file_step, write_step, read_step, feed_spec, input_step, change_step,
};
use crate::text::{lines_of, lines_from, concat, strip_cr, trim_newlines, pieces_of, is_digit};
use crate::grammar::{
    parse_line, offset_from, skip_ws, digits_end, fits_isize, lemma_skip_ws,
};
use crate::state::{AddressV, CommandFlow, CommandV, ErrKind, KindV, MlcV};
use crate::substitute::{expand, expand_from, substituted, prefix_join, replaced_join};

verus! {

/// A second `u` undoes the first: the buffer and the snapshot are back as
/// they were.
pub proof fn undo_twice_is_identity(s: ReplV, suffix: Option<KindV>)
    requires
        s.snapshot is Some,
    ensures
        ({
            let (s1, r1) = undo_step(s, AddressV::Absent, suffix);
            let (s2, r2) = undo_step(s1, AddressV::Absent, suffix);
            &&& r1 is Ok
            &&& r2 is Ok
            &&& s2.buffer == s.buffer
            &&& s2.snapshot == s.snapshot
        }),
{
    reveal(undo_step);
}

/// `u` after a command that changed the text (`d`, `j`, `m`, `t`, `x` or
/// `s`) and succeeded brings back the text, current line and range from
/// before it.
pub proof fn undo_restores_before_command(s: ReplV, c: CommandV)
    requires
        c.kind is Delete || c.kind is Join || c.kind is Move || c.kind is Transfer || c.kind is Put
            || c.kind is Substitution,
        command_step(s, c).1 is Ok,
        !command_step(s, c).0.halted,
    ensures
        ({
            let (s2, r2) = undo_step(command_step(s, c).0, AddressV::Absent, None);
            &&& r2 is Ok
            &&& s2.buffer.text == s.buffer.text
            &&& s2.buffer.cur == s.buffer.cur
            &&& s2.buffer.range == s.buffer.range
        }),
{
    reveal(undo_step);
    let s0 = ReplV { exit_confirm: 0, ..s };
    assert(command_step(s, c).0.snapshot == Some(snap_of(s.buffer))) by {
        match c.kind {
            KindV::Delete => {
                reveal(delete_step);
            },
            KindV::Join => {
                reveal(join_step);
            },
            KindV::Move(d) => {
                reveal(relocate_step);
            },
            KindV::Transfer(d) => {
                reveal(relocate_step);
            },
            KindV::Put => {
                reveal(put_step);
            },
            KindV::Substitution { re, sub, flag, repeated } => {
                lemma_subst_snapshot(s0, c.address, re, sub, flag, repeated, c.suffix);
            },
            _ => {},
        }
    }
}

/// A substitution that succeeds keeps the buffer from before it as the
/// snapshot.
proof fn lemma_subst_snapshot(
    s: ReplV,
    a: AddressV,
    re: Option<Seq<char>>,
    sub: Seq<Seq<char>>,
    flag: Option<Seq<char>>,
    repeated: bool,
    suffix: Option<KindV>,
)
    requires
        subst_step(s, a, re, sub, flag, repeated, suffix).1 is Ok,
        !subst_step(s, a, re, sub, flag, repeated, suffix).0.halted,
    ensures
        subst_step(s, a, re, sub, flag, repeated, suffix).0.snapshot == Some(snap_of(s.buffer)),
{
    reveal(subst_step);
    reveal(subst_lines);
    reveal(subst_finish);
}

/// With the text changed since it was last written, `q` only warns (`?`);
/// a second `q` right after ends the session. Without changes, one `q`
/// ends it.
pub proof fn quit_needs_confirmation(s: ReplV)
    requires
        s.exit_confirm == 0,
        !s.finished,
    ensures
        ({
            let (s1, r1) = quit_step(s, AddressV::Absent);
            let (s2, r2) = quit_step(s1, AddressV::Absent);
            &&& r1 is Ok && r2 is Ok
            &&& s1.finished <==> s.snapshot is None
            &&& !s1.finished ==> s1.out == s.out + seq!['?', '\n']
            &&& s2.finished
        }),
{
    reveal(quit_step);
    let (s1, r1) = quit_step(s, AddressV::Absent);
    assert(s1.exit_confirm == 1);
    assert(s1.finished <==> s.snapshot is None);
    let (s2, r2) = quit_step(s1, AddressV::Absent);
    assert(s2.finished);
}

/// With the text changed since it was last written, `e` refuses once
/// (`EndOfInput`); a second `e` right after goes on.
pub proof fn edit_needs_confirmation(s: ReplV, name: Option<Seq<char>>)
    requires
        s.edit_confirm == 0,
        s.snapshot is Some,
        s.pending is None,
    ensures
        ({
            let (s1, r1) = edit_step(s, name);
            let (s2, r2) = edit_step(s1, name);
            &&& r1 == Err::<(), ErrKind>(ErrKind::EndOfInput)
            &&& s1.pending is None
            &&& (name is Some ==> r2 is Ok && s2.pending == Some(
                PendingV::EditRead { name: name->0 },
            ))
        }),
{
    reveal(edit_step);
}

/// Once the text is written, nothing is left to confirm: the snapshot is
/// gone, so a following `q` ends the session at once.
pub proof fn write_clears_changes(s: ReplV, contents: Seq<char>)
    ensures
        ({
            let (s1, r1) = finish_step(s, PendingV::WriteAll { contents }, FileReplyV::Done);
            &&& r1 is Ok
            &&& s1.snapshot is None
            &&& quit_step(ReplV { exit_confirm: 0, ..s1 }, AddressV::Absent).0.finished
        }),
{
    reveal(quit_step);
}

/// The print commands `l`, `n` and `p` never change the text; where they
/// fail (an address not found, say) the current line stays too.
pub proof fn printing_keeps_text(s: ReplV, a: AddressV, escaped: bool, numbered: bool)
    ensures
        list_step(s, a, escaped, numbered).0.buffer.text == s.buffer.text,
        list_step(s, a, escaped, numbered).1 is Err ==> list_step(
            s,
            a,
            escaped,
            numbered,
        ).0.buffer.cur == s.buffer.cur,
{
    reveal(list_step);
}

/// `f` changes neither the text nor the current line.
pub proof fn file_name_keeps_buffer(s: ReplV, name: Option<Seq<char>>)
    ensures
        file_step(s, name).0.buffer == s.buffer,
{
    reveal(file_step);
}

/// `w` with a name does not replace a file name the session already has;
/// `w` and `r` without a name use the session's file name.
pub proof fn file_name_is_kept_and_reused(s: ReplV, a: AddressV, name: Option<Seq<char>>)
    requires
        s.file is Some,
    ensures
        write_step(s, a, name).0.file == s.file,
        read_step(s, a, name).0.file == s.file,
        name is None ==> write_step(s, a, name).0.pending == Some(
            PendingV::Create { name: s.file->0, address: a },
        ),
        name is None ==> (read_step(s, a, name).0.pending matches Some(
            PendingV::Read { name: n, .. },
        ) && n == s.file->0),
{
    reveal(write_step);
    reveal(read_step);
}

/// After `e` read a file, the session's file name is that file's.
pub proof fn edit_remembers_file_name(s: ReplV, name: Seq<char>, t: Seq<char>)
    ensures
        finish_step(s, PendingV::EditRead { name }, FileReplyV::Contents(t)).0.file == Some(name),
        finish_step(s, PendingV::EditRead { name }, FileReplyV::Contents(t)).0.buffer.text
            == lines_of(t),
{
    assert(inserted(Seq::<Seq<char>>::empty(), 0, lines_of(t)) =~= lines_of(t));
}

/// A substitution with the flag `0` is refused and changes nothing in the
/// buffer.
pub proof fn zero_flag_is_refused(
    s: ReplV,
    a: AddressV,
    re: Option<Seq<char>>,
    sub: Seq<Seq<char>>,
    repeated: bool,
    suffix: Option<KindV>,
)
    ensures
        subst_step(s, a, re, sub, Some(seq!['0']), repeated, suffix).1 == Err::<(), ErrKind>(
            ErrKind::InvalidAddress,
        ),
        subst_step(s, a, re, sub, Some(seq!['0']), repeated, suffix).0.buffer == s.buffer,
{
    reveal(subst_step);
    assert(seq!['0'] != seq!['g']) by {
        assert(seq!['0'][0] != seq!['g'][0]);
    }
}

/// A substitution whose replacement is just `%` with no replacement
/// remembered is refused (`NoData`), and leaves the text, the current line
/// and the range as they were.
pub proof fn percent_without_previous_is_refused(
    s: ReplV,
    a: AddressV,
    re: Option<Seq<char>>,
    flag: Option<Seq<char>>,
    suffix: Option<KindV>,
)
    requires
        s.buffer.subs is None,
        subst_step(s, a, re, seq![seq!['%']], flag, false, suffix).0.halted == false,
    ensures
        ({
            let (s1, r) = subst_step(s, a, re, seq![seq!['%']], flag, false, suffix);
            &&& r is Err
            &&& s1.buffer.text == s.buffer.text
            &&& s1.buffer.cur == s.buffer.cur
        }),
{
    reveal(subst_step);
    reveal(subst_lines);
}

/// Yanking never changes the text.
pub proof fn yank_keeps_text(s: ReplV, a: AddressV)
    ensures
        yank_step(s, a).0.buffer.text == s.buffer.text,
{
    reveal(yank_step);
}

/// A move or copy that fails (a destination inside the range, say) leaves
/// the text as it was.
pub proof fn failed_relocation_keeps_text(s: ReplV, a: AddressV, dest: AddressV, copy: bool)
    requires
        relocate_step(s, a, dest, copy).1 is Err,
    ensures
        relocate_step(s, a, dest, copy).0.buffer.text == s.buffer.text,
{
    reveal(relocate_step);
}

/// The changes a substitution makes fail only on a line number outside
/// the text.
proof fn lemma_apply_error_kind(b: BufferV, cs: Seq<Change>)
    ensures
        apply_changes(b, cs).1 is Err ==> apply_changes(b, cs).1 == Err::<(), ErrKind>(
            ErrKind::InvalidRange,
        ),
    decreases cs.len(),
{
    if cs.len() > 0 {
        lemma_apply_error_kind(b, cs.drop_last());
    }
}

/// A substitution that finds nothing to replace (or no expression to use)
/// reports it and leaves the text, the current line and the range as they
/// were.
pub proof fn unmatched_substitution_keeps_buffer(
    s: ReplV,
    a: AddressV,
    re: Option<Seq<char>>,
    sub: Seq<Seq<char>>,
    flag: Option<Seq<char>>,
    repeated: bool,
    suffix: Option<KindV>,
)
    requires
        subst_step(s, a, re, sub, flag, repeated, suffix).1 == Err::<(), ErrKind>(
            ErrKind::RegexNotFound,
        ),
    ensures
        ({
            let b = subst_step(s, a, re, sub, flag, repeated, suffix).0.buffer;
            &&& b.text == s.buffer.text
            &&& b.cur == s.buffer.cur
            &&& b.range == s.buffer.range
        }),
{
    reveal(subst_step);
    reveal(subst_lines);
    reveal(subst_finish);
    let s1 = ReplV { edit_confirm: 0, ..s };
    let b0 = if re is Some {
        BufferV { re, ..s.buffer }
    } else {
        s.buffer
    };
    if let Some(plan) = subs_plan(flag, s.buffer.flag, repeated, suffix) {
        if let Some(src) = b0.re {
            if regex_compiles(src) && b0.resolves(a) {
                let (b1, r1) = buf_range(b0, a);
                if r1 is Ok {
                    let previous = b1.subs;
                    let b2 = BufferV { subs: None, ..b1 };
                    if !(repeated && previous is None) {
                        let sub2 = if repeated {
                            previous->0
                        } else {
                            sub
                        };
                        let prev2 = if repeated {
                            None
                        } else {
                            previous
                        };
                        let use_prev = sub2.len() == 1 && sub2[0] == seq!['%'];
                        if !(use_prev && !repeated && prev2 is None) {
                            let replacement = if use_prev && prev2 is Some {
                                prev2->0
                            } else {
                                sub2
                            };
                            let (b3, r3) = buf_lines(b2);
                            if let Ok(ls) = r3 {
                                let (changes, success) = line_changes(
                                    ls,
                                    b2.range.0 as nat,
                                    src,
                                    replacement,
                                    plan.nth,
                                    plan.global,
                                );
                                lemma_apply_error_kind(b3, changes);
                            }
                        }
                    }
                }
            }
        }
    }
}

/// Deleting a range and putting the deleted lines back after the line
/// before it gives the text back.
pub proof fn delete_then_put_back(b: BufferV)
    requires
        span_ok(b.text.len(), b.range),
    ensures
        ({
            let (b1, r) = buf_delete(b);
            &&& r is Ok
            &&& inserted(b1.text, b.range.0 - 1, r->Ok_0) == b.text
        }),
{
    let (b1, r) = buf_delete(b);
    let t = b.text;
    let i = b.range.0 - 1;
    let j = b.range.1 as int;
    assert(without(t, b.range).take(i) =~= t.take(i));
    assert(without(t, b.range).skip(i) =~= t.skip(j));
    assert(t.take(i) + t.subrange(i, j) + t.skip(j) =~= t);
}

/// A move keeps every line: the text after it has the same lines, as many
/// times each, in another order.
pub proof fn move_keeps_lines(b: BufferV, a: AddressV)
    requires
        move_spec(b, a) matches Some(o) && o.res is Ok,
    ensures
        move_spec(b, a)->0.text.to_multiset() =~= b.text.to_multiset(),
        move_spec(b, a)->0.text.len() == b.text.len(),
{
    let o = move_spec(b, a)->0;
    let t = b.text;
    let i = b.range.0 - 1;
    let j = b.range.1 as int;
    let rest = without(t, b.range);
    let block = t.subrange(i, j);
    let p = o.range.0 as int;
    let head = rest.take(p);
    let tail = rest.skip(p);
    assert(o.text =~= head + block + tail);
    assert(rest =~= head + tail);
    assert(t =~= t.take(i) + block + t.skip(j));
    vstd::seq_lib::lemma_multiset_commutative(head + block, tail);
    vstd::seq_lib::lemma_multiset_commutative(head, block);
    vstd::seq_lib::lemma_multiset_commutative(head, tail);
    vstd::seq_lib::lemma_multiset_commutative(t.take(i) + block, t.skip(j));
    vstd::seq_lib::lemma_multiset_commutative(t.take(i), block);
    vstd::seq_lib::lemma_multiset_commutative(t.take(i), t.skip(j));
    assert(rest.to_multiset() =~= head.to_multiset().add(tail.to_multiset()));
    assert(rest.to_multiset() =~= t.take(i).to_multiset().add(t.skip(j).to_multiset()));
    assert(o.text.to_multiset() =~= head.to_multiset().add(block.to_multiset()).add(
        tail.to_multiset(),
    ));
    assert(t.to_multiset() =~= t.take(i).to_multiset().add(block.to_multiset()).add(
        t.skip(j).to_multiset(),
    ));
    assert forall|x: Seq<char>| o.text.to_multiset().count(x) == t.to_multiset().count(x) by {
        assert(rest.to_multiset().count(x) == head.to_multiset().count(x) + tail.to_multiset().count(x));
        assert(rest.to_multiset().count(x) == t.take(i).to_multiset().count(x) + t.skip(
            j,
        ).to_multiset().count(x));
    }
}

/// `j` on a single line changes nothing.
pub proof fn join_of_one_line_keeps_text(b: BufferV, a: AddressV)
    requires
        join_spec(b, a) is Some,
        b.resolved(a).0 matches Some(Ok((x, y))) && x == y,
        !(a is Absent),
    ensures
        join_spec(b, a)->0.text == b.text,
{
}

/// Rebuilding a line from the pieces between its matches and the matches
/// themselves gives the line back: up to a match in the middle, and up to
/// the end.
pub proof fn lemma_prefix_rejoin(
    pieces: Seq<Seq<char>>,
    caps: Seq<Seq<Option<Seq<char>>>>,
    j: int,
)
    requires
        pieces.len() == caps.len() + 1,
        0 <= j < caps.len(),
    ensures
        prefix_join(pieces, caps, j) + whole_match(caps[j]) + rejoin(pieces, caps, j + 1) == rejoin(
            pieces,
            caps,
            0,
        ),
    decreases j,
{
    if j > 0 {
        lemma_prefix_rejoin(pieces, caps, j - 1);
        assert(rejoin(pieces, caps, j) == pieces[j] + whole_match(caps[j]) + rejoin(
            pieces,
            caps,
            j + 1,
        ));
        assert(prefix_join(pieces, caps, j) + whole_match(caps[j]) + rejoin(pieces, caps, j + 1)
            =~= prefix_join(pieces, caps, j - 1) + whole_match(caps[j - 1]) + rejoin(
            pieces,
            caps,
            j,
        ));
    } else {
        assert(rejoin(pieces, caps, 0) == pieces[0] + whole_match(caps[0]) + rejoin(
            pieces,
            caps,
            1,
        ));
    }
}

/// The replacement `&` puts each match back as it was.
pub proof fn lemma_ampersand_expands_to_match(groups: Seq<Option<Seq<char>>>)
    ensures
        expand(seq![seq!['&']], groups) == whole_match(groups),
{
    let parts = seq![seq!['&']];
    assert(parts.drop_last() =~= Seq::<Seq<char>>::empty());
    assert(expand_from(seq!['&'], groups, 1) =~= Seq::<char>::empty());
    assert(expand_from(seq!['&'], groups, 0) =~= whole_match(groups));
    assert(expand(parts.drop_last(), groups) =~= Seq::<char>::empty());
    assert(expand(parts, groups) =~= Seq::<char>::empty() + expand_from(seq!['&'], groups, 0));
}

proof fn lemma_replaced_identity(
    pieces: Seq<Seq<char>>,
    caps: Seq<Seq<Option<Seq<char>>>>,
    j: int,
)
    requires
        pieces.len() == caps.len() + 1,
        0 <= j <= caps.len(),
    ensures
        replaced_join(pieces, caps, seq![seq!['&']], j) + rejoin(pieces, caps, j) == rejoin(
            pieces,
            caps,
            0,
        ),
    decreases j,
{
    if j > 0 {
        lemma_replaced_identity(pieces, caps, j - 1);
        lemma_ampersand_expands_to_match(caps[j - 1]);
        assert(rejoin(pieces, caps, j - 1) == pieces[j - 1] + whole_match(caps[j - 1]) + rejoin(
            pieces,
            caps,
            j,
        ));
        assert(replaced_join(pieces, caps, seq![seq!['&']], j) + rejoin(pieces, caps, j)
            =~= replaced_join(pieces, caps, seq![seq!['&']], j - 1) + rejoin(pieces, caps, j - 1));
    } else {
        assert(replaced_join(pieces, caps, seq![seq!['&']], 0) + rejoin(pieces, caps, 0)
            =~= rejoin(pieces, caps, 0));
    }
}

/// Substituting `&` (the match itself) leaves a line as it was, whichever
/// matches are replaced; where the pieces and matches make up the line.
pub proof fn ampersand_substitution_is_identity(
    line: Seq<char>,
    pieces: Seq<Seq<char>>,
    caps: Seq<Seq<Option<Seq<char>>>>,
    nth: int,
    global: bool,
)
    requires
        pieces.len() == caps.len() + 1,
        rejoin(pieces, caps, 0) == line,
    ensures
        substituted(line, pieces, caps, seq![seq!['&']], nth, global).0 == line,
{
    let k = caps.len() as int;
    if global {
        lemma_replaced_identity(pieces, caps, k);
        assert(rejoin(pieces, caps, k) == pieces[k]);
    } else {
        let n = if nth > 0 {
            nth
        } else {
            1
        };
        if k >= n {
            lemma_prefix_rejoin(pieces, caps, n - 1);
            lemma_ampersand_expands_to_match(caps[n - 1]);
        }
    }
}

/// A line without matches comes out of a substitution unchanged, and
/// nothing is reported as replaced.
pub proof fn unmatched_line_is_unchanged(
    line: Seq<char>,
    pieces: Seq<Seq<char>>,
    caps: Seq<Seq<Option<Seq<char>>>>,
    parts: Seq<Seq<char>>,
    nth: int,
    global: bool,
)
    requires
        caps.len() == 0,
        pieces.len() == 1,
        rejoin(pieces, caps, 0) == line,
    ensures
        substituted(line, pieces, caps, parts, nth, global) == (line, false),
{
    assert(replaced_join(pieces, caps, parts, 0) + pieces[0] =~= pieces[0]);
}

/// Whether a command is one of the print commands `l`, `n` and `p`.
pub open spec fn is_print(k: KindV) -> bool {
    k is List || k is NumberedList || k is PrintList
}

/// Whether a pending substitution's suffix, if any, is a print command.
pub open spec fn pending_suffix_prints(p: Option<(MlcV, AddressV)>) -> bool {
    p matches Some((m, _)) ==> (m.suffix matches Some(b) ==> is_print(*b))
}

/// Every command the parser gives has a print command (`l`, `n` or `p`) as
/// its suffix, if it has one, and is never a multi-line substitution still
/// waiting for lines; so what a session runs after a command is always a
/// print command.
pub proof fn parsed_suffixes_are_print_commands(p: Option<(MlcV, AddressV)>, s: Seq<char>)
    requires
        pending_suffix_prints(p),
        parse_line(p, s) is Some,
    ensures
        ({
            let (res, next) = parse_line(p, s)->0;
            &&& res matches Ok(c) ==> (c.suffix matches Some(k) ==> is_print(k)) && !(
            c.kind is MultiLineCommand)
            &&& pending_suffix_prints(next)
        }),
{
}

/// Whether every line ends with one newline, its only one, and has no
/// carriage return before it: the lines text input gives.
pub open spec fn input_lines(t: Seq<Seq<char>>) -> bool {
    forall|i: int|
        0 <= i < t.len() ==> {
            let l = #[trigger] t[i];
            &&& l.len() > 0
            &&& l.last() == '\n'
            &&& forall|k: int| 0 <= k < l.len() - 1 ==> l[k] != '\n'
            &&& !(l.len() > 1 && l[l.len() - 2] == '\r')
        }
}

proof fn lemma_concat_front(t: Seq<Seq<char>>)
    requires
        t.len() > 0,
    ensures
        concat(t) == t[0] + concat(t.skip(1)),
    decreases t.len(),
{
    if t.len() == 1 {
        assert(t.drop_last() =~= Seq::<Seq<char>>::empty());
        assert(t.skip(1) =~= Seq::<Seq<char>>::empty());
        assert(concat(t) =~= t[0] + concat(t.skip(1)));
    } else {
        lemma_concat_front(t.drop_last());
        assert(t.drop_last().skip(1) =~= t.skip(1).drop_last());
        assert(t.skip(1).last() == t.last());
        assert(concat(t) =~= t[0] + concat(t.skip(1)));
    }
}

proof fn lemma_lines_shift(s: Seq<char>, j: int, start: int, i: int)
    requires
        0 <= j <= start <= i <= s.len(),
    ensures
        lines_from(s, start, i) == lines_from(s.skip(j), start - j, i - j),
    decreases s.len() - i,
{
    let t = s.skip(j);
    if i >= s.len() {
        if start < s.len() {
            assert(s.subrange(start, s.len() as int) =~= t.subrange(start - j, t.len() as int));
        }
    } else if s[i] == '\n' {
        assert(t[i - j] == s[i]);
        assert(s.subrange(start, i) =~= t.subrange(start - j, i - j));
        lemma_lines_shift(s, j, i + 1, i + 1);
    } else {
        assert(t[i - j] == s[i]);
        lemma_lines_shift(s, j, start, i + 1);
    }
}

proof fn lemma_lines_scan(s: Seq<char>, start: int, i: int, k: int)
    requires
        0 <= start <= i <= k < s.len(),
        forall|m: int| i <= m < k ==> s[m] != '\n',
    ensures
        lines_from(s, start, i) == lines_from(s, start, k),
    decreases k - i,
{
    if i < k {
        lemma_lines_scan(s, start, i + 1, k);
    }
}

proof fn lemma_reads_back(t: Seq<Seq<char>>)
    requires
        input_lines(t),
    ensures
        lines_of(concat(t)) == t.map_values(|l: Seq<char>| l.drop_last()),
    decreases t.len(),
{
    if t.len() == 0 {
        assert(lines_of(concat(t)) =~= Seq::<Seq<char>>::empty());
        assert(t.map_values(|l: Seq<char>| l.drop_last()) =~= Seq::<Seq<char>>::empty());
    } else {
        let rest = t.skip(1);
        assert(input_lines(rest)) by {
            assert forall|i: int| 0 <= i < rest.len() implies #[trigger] rest[i] == t[i + 1] by {}
        }
        lemma_reads_back(rest);
        lemma_concat_front(t);
        let l = t[0];
        let x = l.drop_last();
        let r = concat(rest);
        let s = concat(t);
        let n = x.len() as int;
        assert(s =~= x + seq!['\n'] + r);
        assert(s[n] == '\n');
        assert forall|m: int| 0 <= m < n implies s[m] != '\n' by {
            assert(s[m] == l[m]);
        }
        lemma_lines_scan(s, 0, 0, n);
        assert(s.subrange(0, n) =~= x);
        assert(strip_cr(x) == x);
        lemma_lines_shift(s, n + 1, n + 1, n + 1);
        assert(s.skip(n + 1) =~= r);
        assert(lines_of(s) == seq![x] + lines_of(r));
        assert(t.map_values(|l: Seq<char>| l.drop_last()) =~= seq![x] + rest.map_values(
            |l: Seq<char>| l.drop_last(),
        ));
    }
}

/// What `w` writes of a text typed in, `e` reads back as the same lines,
/// each without its newline.
pub proof fn written_text_reads_back(s: ReplV, name: Seq<char>)
    requires
        input_lines(s.buffer.text),
        s.buffer.text.len() <= usize::MAX,
    ensures
        ({
            let written = saved_text(s.buffer, AddressV::Absent);
            &&& written is Ok
            &&& finish_step(
                s,
                PendingV::EditRead { name },
                FileReplyV::Contents(written->Ok_0),
            ).0.buffer.text == s.buffer.text.map_values(|l: Seq<char>| l.drop_last())
        }),
{
    let t = s.buffer.text;
    lemma_reads_back(t);
    lemma_write_all(s.buffer);
    edit_remembers_file_name(s, name, concat(t));
}

/// A write without an address saves the whole text.
proof fn lemma_write_all(b: BufferV)
    requires
        b.text.len() <= usize::MAX,
    ensures
        saved_text(b, AddressV::Absent) == Ok::<Seq<char>, ErrKind>(concat(b.text)),
{
    let t = b.text;
    if t.len() > 0 {
        assert(t.subrange(0, t.len() as int) =~= t);
    } else {
        assert(concat(t) =~= Seq::<char>::empty());
    }
}

/// A session that has ended, halted or waits for file work ignores input
/// lines: only its output is cleared.
pub proof fn stopped_session_ignores_lines(s: ReplV, line: Seq<char>)
    requires
        s.finished || s.halted || s.pending is Some,
    ensures
        feed_spec(s, line) == (ReplV { out: Seq::empty(), ..s }),
{
}

/// Text input leaves the snapshot alone: a line typed in, or the `.` that
/// ends input when the suffix to run is a print command. As `a`, `i` and
/// `c` keep the buffer from before them as the snapshot, a `u` after the
/// input brings the text from before the command back.
pub proof fn input_keeps_snapshot(s: ReplV, line: Seq<char>)
    requires
        s.flow == CommandFlow::Input,
        s.postfix matches Some(k) ==> is_print(k),
    ensures
        feed_spec(s, line).snapshot == s.snapshot,
{
    reveal(list_step);
}

/// `a`, `i` and `c` that begin text input keep the buffer from before them
/// as the snapshot.
pub proof fn input_commands_save_snapshot(s: ReplV, a: AddressV, suffix: Option<KindV>, before: bool)
    ensures
        input_step(s, a, suffix, before).0.flow == CommandFlow::Input && s.flow
            == CommandFlow::Command ==> input_step(
            s,
            a,
            suffix,
            before,
        ).0.snapshot == Some(snap_of(s.buffer)),
        change_step(s, a, suffix).0.flow == CommandFlow::Input && s.flow == CommandFlow::Command
            ==> change_step(s, a, suffix).0.snapshot == Some(snap_of(s.buffer)),
{
    reveal(input_step);
    reveal(change_step);
}

/// A number below twice the modulus, reduced once.
proof fn lemma_wrap(v: int, n: int)
    requires
        0 < n,
        0 <= v < 2 * n,
    ensures
        v % n == (if v < n {
            v
        } else {
            v - n
        }),
{
    if v < n {
        assert(v % n == v) by (nonlinear_arith)
            requires
                0 <= v < n,
        ;
    } else {
        assert(v % n == v - n) by (nonlinear_arith)
            requires
                n <= v < 2 * n,
        ;
    }
}

/// A forward search looks at the lines right after the current one first,
/// wrapping from the last line to the first, the current line last: step
/// `k` looks at line `(c mod n) + k` reduced mod `n` (0-based), so the `n`
/// steps look at every line once.
pub proof fn forward_search_order(n: nat, c: usize, k: int, k2: int)
    requires
        n > 0,
        0 <= k < n,
        0 <= k2 < n,
    ensures
        0 <= search_index(n, c, true, k) < n,
        search_index(n, c, true, 0) == c as int % n as int,
        k + 1 < n ==> search_index(n, c, true, k + 1) == (search_index(n, c, true, k) + 1) % (
        n as int),
        k != k2 ==> search_index(n, c, true, k) != search_index(n, c, true, k2),
        1 <= c <= n ==> search_index(n, c, true, n - 1) == c - 1,
{
    let a = c as int % n as int;
    assert(0 <= a < n) by (nonlinear_arith)
        requires
            n > 0,
            a == c as int % n as int,
    ;
    lemma_wrap(a + k, n as int);
    lemma_wrap(a + k2, n as int);
    lemma_wrap(a, n as int);
    if k + 1 < n {
        lemma_wrap(a + k + 1, n as int);
        lemma_wrap(search_index(n, c, true, k) + 1, n as int);
    }
    if 1 <= c <= n {
        lemma_wrap(a + n - 1, n as int);
        if c as int == n as int {
            assert(a == 0) by (nonlinear_arith)
                requires
                    c as int == n as int,
                    n > 0,
                    a == c as int % n as int,
            ;
        } else {
            lemma_wrap(c as int, n as int);
        }
    }
}

/// A backward search looks at the lines right before the current one
/// first, wrapping from the first line to the last, the current line last:
/// it starts at line `c - 1` (the last line when `c` is 0 or 1; 1-based)
/// and goes one line back at each step, so the `n` steps look at every
/// line once.
pub proof fn backward_search_order(n: nat, c: usize, k: int, k2: int)
    requires
        n > 0,
        c <= n,
        0 <= k < n,
        0 <= k2 < n,
    ensures
        0 <= search_index(n, c, false, k) < n,
        search_index(n, c, false, 0) == (if c <= 1 {
            n - 1
        } else {
            c - 2
        }),
        k + 1 < n ==> search_index(n, c, false, k + 1) == (if search_index(n, c, false, k) == 0 {
            n - 1
        } else {
            search_index(n, c, false, k) - 1
        }),
        k != k2 ==> search_index(n, c, false, k) != search_index(n, c, false, k2),
        search_index(n, c, false, n - 1) == sat_sub1(c),
{
    let st = sat_sub1(c);
    lemma_wrap(st + n - 1 - k, n as int);
    lemma_wrap(st + n - 1 - k2, n as int);
    lemma_wrap(st + n - 1, n as int);
    lemma_wrap(st + 0, n as int);
    if k + 1 < n {
        lemma_wrap(st + n - 1 - (k + 1), n as int);
    }
}

/// A search for an expression that compiles and matches no line finds
/// nothing: the address is an error (`RegexNotFound`).
pub proof fn unmatched_search_is_not_found(
    lines: Seq<Seq<char>>,
    cur: usize,
    src: Seq<char>,
    re: Option<Seq<char>>,
    forward: bool,
    o: isize,
)
    requires
        regex_compiles(src),
        forall|i: int| 0 <= i < lines.len() ==> !regex_is_match(src, #[trigger] lines[i]),
        !(!forward && lines.len() > 0 && sat_sub1(cur) + lines.len() > usize::MAX),
    ensures
        search_line(lines, cur, src, re, forward, o) == (
            Some(Err::<usize, ErrKind>(ErrKind::RegexNotFound)),
            re,
        ),
{
    lemma_no_match(lines, src, cur, forward, 0);
}

proof fn lemma_no_match(lines: Seq<Seq<char>>, src: Seq<char>, cur: usize, forward: bool, k: int)
    requires
        forall|i: int| 0 <= i < lines.len() ==> !regex_is_match(src, #[trigger] lines[i]),
        k >= 0,
    ensures
        first_match(lines, src, cur, forward, k) is None,
    decreases lines.len() - k,
{
    if k < lines.len() {
        let n = lines.len();
        let i = search_index(n, cur, forward, k);
        if forward {
            let a = cur as int % n as int;
            assert(0 <= a < n) by (nonlinear_arith)
                requires
                    n > 0,
                    a == cur as int % n as int,
            ;
            assert(0 <= i < n) by (nonlinear_arith)
                requires
                    n > 0,
                    i == (a + k) % (n as int),
            ;
        } else {
            assert(0 <= i < n) by (nonlinear_arith)
                requires
                    n > 0,
                    i == (sat_sub1(cur) + n - 1 - k) % (n as int),
            ;
        }
        assert(!regex_is_match(src, lines[i]));
        lemma_no_match(lines, src, cur, forward, k + 1);
    }
}

/// A move that succeeds puts the moved lines right after the line the
/// destination names, and they keep their order. Moving forward (past the
/// range), the lines up to the destination line come first; moving back,
/// the block goes right after the destination line and the lines between
/// it and the range follow. The last moved line becomes current.
pub proof fn move_places_block_after_destination(b: BufferV, a: AddressV)
    requires
        move_spec(b, a) matches Some(o) && o.res is Ok,
    ensures
        ({
            let t = b.text;
            let (r0, r1) = b.range;
            let dest = b.resolved(a).0->0->Ok_0.1;
            let block = t.subrange(r0 - 1, r1 as int);
            let o = move_spec(b, a)->0;
            &&& b.resolved(a).0 matches Some(Ok(_))
            &&& 1 <= r0 <= r1 + 1 && r1 <= t.len()
            &&& dest > r1 ==> dest <= t.len() && o.text == t.take(r0 - 1) + t.subrange(
                r1 as int,
                dest as int,
            ) + block + t.skip(dest as int) && o.cur == dest
            &&& dest < r0 ==> o.text == t.take(dest as int) + block + t.subrange(
                dest as int,
                r0 - 1,
            ) + t.skip(r1 as int) && o.cur == dest + block.len()
            &&& dest > r1 || dest < r0
        }),
{
    let t = b.text;
    let (r0, r1) = b.range;
    let dest = b.resolved(a).0->0->Ok_0.1;
    let block = t.subrange(r0 - 1, r1 as int);
    let o = move_spec(b, a)->0;
    let rest = without(t, b.range);
    let k = r1 - r0 + 1;
    if dest > r1 {
        let p = dest - k;
        assert(rest.take(p) =~= t.take(r0 - 1) + t.subrange(r1 as int, dest as int));
        assert(rest.skip(p) =~= t.skip(dest as int));
    } else {
        let p = dest as int;
        assert(rest.take(p) =~= t.take(dest as int));
        assert(rest.skip(p) =~= t.subrange(dest as int, r0 - 1) + t.skip(r1 as int));
    }
}

/// Whether `p` is `l` without its trailing newlines: a prefix of `l`,
/// followed in `l` by newlines only, and not itself ending in one.
pub open spec fn newlines_trimmed(l: Seq<char>, p: Seq<char>) -> bool {
    &&& p.len() <= l.len()
    &&& p == l.take(p.len() as int)
    &&& forall|k: int| p.len() <= k < l.len() ==> l[k] == '\n'
    &&& (p.len() == 0 || p.last() != '\n')
}

proof fn lemma_trim_newlines(l: Seq<char>)
    ensures
        newlines_trimmed(l, trim_newlines(l)),
    decreases l.len(),
{
    if l.len() > 0 && l.last() == '\n' {
        lemma_trim_newlines(l.drop_last());
        let p = trim_newlines(l.drop_last());
        assert(p == l.take(p.len() as int)) by {
            assert(l.drop_last().take(p.len() as int) =~= l.take(p.len() as int));
        }
        assert forall|k: int| p.len() <= k < l.len() implies l[k] == '\n' by {
            if k < l.len() - 1 {
                assert(l.drop_last()[k] == l[k]);
            }
        }
    } else {
        assert(l.take(l.len() as int) =~= l);
    }
}

/// A join of two or more lines keeps the first line as it is and appends
/// each later line of the range with only its trailing newlines removed
/// (every other character, blanks and tabs included, is kept); the lines
/// around the range stay, and the current line does not move.
pub proof fn join_appends_lines_without_newlines(b: BufferV, a: AddressV)
    requires
        join_spec(b, a) matches Some(o) && o.res is Ok,
        o_text_changes(b, a),
    ensures
        ({
            let t = b.text;
            let (r0, r1) = join_range(b, a).0->0->Ok_0;
            let pieces = t.subrange(r0 as int, r1 as int).map_values(|l: Seq<char>| trim_newlines(l));
            let o = join_spec(b, a)->0;
            &&& 1 <= r0 < r1 <= t.len()
            &&& o.text == t.take(r0 - 1) + seq![t[r0 - 1] + concat(pieces)] + t.skip(r1 as int)
            &&& forall|i: int| 0 <= i < pieces.len() ==> newlines_trimmed(t[r0 + i], #[trigger] pieces[i])
            &&& o.cur == b.cur
            &&& o.range == (r0, r1)
        }),
{
    let t = b.text;
    let (r0, r1) = join_range(b, a).0->0->Ok_0;
    let pieces = t.subrange(r0 as int, r1 as int).map_values(|l: Seq<char>| trim_newlines(l));
    assert forall|i: int| 0 <= i < pieces.len() implies newlines_trimmed(t[r0 + i], #[trigger] pieces[i]) by {
        lemma_trim_newlines(t[r0 + i]);
    }
    let o = join_spec(b, a)->0;
    assert(o.text =~= t.take(r0 - 1) + seq![t[r0 - 1] + concat(pieces)] + t.skip(r1 as int));
}

/// Whether the address of a join names two or more lines.
pub open spec fn o_text_changes(b: BufferV, a: AddressV) -> bool {
    join_range(b, a).0 matches Some(Ok((r0, r1))) && r0 != r1
}

/// `r` puts the file's lines right after the line its address names (after
/// every line for `$`), in their order; the last of them becomes current.
pub proof fn read_puts_lines_after_address(
    s: ReplV,
    name: Seq<char>,
    address: AddressV,
    snap: SnapV,
    contents: Seq<char>,
)
    requires
        s.buffer.resolved(address).0 matches Some(Ok((x, y))) && max(x, y) <= s.buffer.text.len(),
        s.buffer.text.len() + lines_of(contents).len() <= usize::MAX,
    ensures
        ({
            let t = s.buffer.text;
            let y = s.buffer.resolved(address).0->0->Ok_0.1;
            let (s1, r) = finish_step(
                s,
                PendingV::Read { name, address, snap },
                FileReplyV::Contents(contents),
            );
            &&& r is Ok
            &&& s1.buffer.text == t.take(y as int) + lines_of(contents) + t.skip(y as int)
            &&& s1.buffer.cur == y + lines_of(contents).len()
        }),
{
}

/// A substitution treats each line of the range on its own: the changes for
/// a range are those for its first part followed by those for the rest
/// (numbered on from where the first part ends), and it replaced something
/// if either part did. So whether an earlier line matched never changes
/// what happens to a later one.
pub proof fn substitution_lines_are_independent(
    ls1: Seq<Seq<char>>,
    ls2: Seq<Seq<char>>,
    start: nat,
    src: Seq<char>,
    parts: Seq<Seq<char>>,
    nth: int,
    global: bool,
)
    ensures
        ({
            let (c1, ok1) = line_changes(ls1, start, src, parts, nth, global);
            let (c2, ok2) = line_changes(ls2, start + ls1.len(), src, parts, nth, global);
            line_changes(ls1 + ls2, start, src, parts, nth, global) == (c1 + c2, ok1 || ok2)
        }),
    decreases ls2.len(),
{
    if ls2.len() == 0 {
        assert(ls1 + ls2 =~= ls1);
    } else {
        substitution_lines_are_independent(ls1, ls2.drop_last(), start, src, parts, nth, global);
        assert((ls1 + ls2).drop_last() =~= ls1 + ls2.drop_last());
        assert((ls1 + ls2).last() == ls2.last());
        let (c1, ok1) = line_changes(ls1, start, src, parts, nth, global);
        let (c2, ok2) = line_changes(ls2.drop_last(), start + ls1.len(), src, parts, nth, global);
        let (c3, ok3) = line_changes(ls2, start + ls1.len(), src, parts, nth, global);
        let (all, okall) = line_changes(ls1 + ls2, start, src, parts, nth, global);
        assert(all =~= c1 + c3);
    }
}

/// One line of a range: it is substituted on its own (see `substituted`),
/// and the result is cut after its newlines; the first piece replaces the
/// line (with its number) and the others are appended after it.
pub proof fn substitution_of_one_line(
    l: Seq<char>,
    start: nat,
    src: Seq<char>,
    parts: Seq<Seq<char>>,
    nth: int,
    global: bool,
)
    ensures
        ({
            let (out, hit) = substituted(
                l,
                regex_split(src, l),
                regex_captures(src, l),
                parts,
                nth,
                global,
            );
            let pieces = pieces_of(out);
            let (cs, ok) = line_changes(seq![l], start, src, parts, nth, global);
            &&& ok == hit
            &&& cs.len() == pieces.len()
            &&& forall|k: int| 0 <= k < cs.len() ==> #[trigger] cs[k] == (k == 0, start as usize, pieces[k])
        }),
{
    assert(seq![l].drop_last() =~= Seq::<Seq<char>>::empty());
    assert(seq![l].last() == l);
    let (cs, ok) = line_changes(seq![l], start, src, parts, nth, global);
    let (out, hit) = substituted(l, regex_split(src, l), regex_captures(src, l), parts, nth, global);
    let pieces = pieces_of(out);
    let n = (start + 1 - 1) as usize;
    assert(n == start as usize);
    let fresh = Seq::new(pieces.len(), |k: int| (k == 0, n, pieces[k]));
    assert(line_changes(Seq::<Seq<char>>::empty(), start, src, parts, nth, global) == (
        Seq::<Change>::empty(),
        false,
    ));
    assert(cs == Seq::<Change>::empty() + fresh);
    assert(cs =~= fresh);
}

/// A `+` or `-` with no number after it moves the offset by one line.
pub proof fn bare_sign_is_one_line(s: Seq<char>, p: int, acc: int)
    requires
        0 <= p <= s.len(),
        skip_ws(s, p) < s.len(),
        s[skip_ws(s, p)] == '+' || s[skip_ws(s, p)] == '-',
        !(skip_ws(s, skip_ws(s, p) + 1) < s.len() && is_digit(s[skip_ws(s, skip_ws(s, p) + 1)])),
    ensures
        ({
            let q = skip_ws(s, p);
            let r = skip_ws(s, q + 1);
            let next = if s[q] == '+' {
                acc + 1
            } else {
                acc - 1
            };
            offset_from(s, p, acc) == (if fits_isize(next) {
                offset_from(s, r, next)
            } else {
                None
            })
        }),
{
    let q = skip_ws(s, p);
    lemma_skip_ws(s, p);
    lemma_skip_ws(s, q + 1);
    let r = skip_ws(s, q + 1);
    assert(digits_end(s, r) == r);
}

} // verus!
