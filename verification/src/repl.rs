//! An editing session: what each input line does to the editor's state and
//! what it prints. Files are read and written by the caller: the session
//! asks for that work and is handed its outcome.
use vstd::prelude::*;
use crate::buffer::{
    Buffer, BufferV, BufferView, Snapshot, span_ok, without, inserted, min, max, sat_sub1,
    move_spec, transfer_spec, join_spec, Outcome, save_range, saved_text, render_from,
    result_kind, print_only,
};
use crate::pattern::{Pattern, compile, regex_compiles, regex_split, regex_captures};
use crate::substitute::{substituted, substitute_line, flag_number, parse_flag_number};
use crate::grammar::parse_line;
use crate::state::{
    Address, AddressV, Command, CommandKind, CommandV, KindV, CommandFlow, EdError, ErrKind,
    Parser, MlcV, strs, opt_str, opt_kind,
};
use crate::text::{
    trim, decimal, lines_of, pieces_of, chars_of, split_lines, split_inclusive_newline,
    string_from_chars, push_decimal, trim_chars,
};

verus! {

/// What a snapshot keeps: the text, the current line and the range.
pub struct SnapV {
    pub text: Seq<Seq<char>>,
    pub cur: usize,
    pub range: (usize, usize),
}

pub open spec fn snap_of(b: BufferV) -> SnapV {
    SnapV { text: b.text, cur: b.cur, range: b.range }
}

pub open spec fn snap_view(s: Snapshot) -> SnapV {
    SnapV { text: s.text(), cur: s.current(), range: s.range() }
}

pub open spec fn opt_snap(o: Option<Snapshot>) -> Option<SnapV> {
    match o {
        Some(s) => Some(snap_view(s)),
        None => None,
    }
}

pub open spec fn opt_lines(o: Option<Vec<String>>) -> Option<Seq<Seq<char>>> {
    match o {
        Some(v) => Some(strs(v)),
        None => None,
    }
}

/// File work a command waits for.
enum Pending {
    Create { name: String, address: Address },
    WriteAll { contents: String },
    EditRead { name: String },
    Read { name: String, address: Address, snapshot: Snapshot },
}

/// File work a command waits for: creating the file a write goes to, then
/// writing the text to it; reading the file an edit or a read takes in.
pub enum PendingV {
    Create { name: Seq<char>, address: AddressV },
    WriteAll { contents: Seq<char> },
    EditRead { name: Seq<char> },
    Read { name: Seq<char>, address: AddressV, snap: SnapV },
}

spec fn pending_view(p: Pending) -> PendingV {
    match p {
        Pending::Create { name, address } => PendingV::Create { name: name@, address: address@ },
        Pending::WriteAll { contents } => PendingV::WriteAll { contents: contents@ },
        Pending::EditRead { name } => PendingV::EditRead { name: name@ },
        Pending::Read { name, address, snapshot } => PendingV::Read {
            name: name@,
            address: address@,
            snap: snap_view(snapshot),
        },
    }
}

spec fn opt_pending(o: Option<Pending>) -> Option<PendingV> {
    match o {
        Some(p) => Some(pending_view(p)),
        None => None,
    }
}

/// What the caller is asked to do with a file.
pub enum FileRequest {
    /// Create (or truncate) the named file, to be written next.
    Create(String),
    /// Write the text to the file just created.
    Write(String),
    /// Read the whole named file.
    Read(String),
}

pub enum RequestV {
    Create(Seq<char>),
    Write(Seq<char>),
    Read(Seq<char>),
}

pub open spec fn request_view(o: Option<FileRequest>) -> Option<RequestV> {
    match o {
        Some(FileRequest::Create(n)) => Some(RequestV::Create(n@)),
        Some(FileRequest::Write(t)) => Some(RequestV::Write(t@)),
        Some(FileRequest::Read(n)) => Some(RequestV::Read(n@)),
        None => None,
    }
}

/// The request that pending work makes of the caller.
pub open spec fn request_of(p: Option<PendingV>) -> Option<RequestV> {
    match p {
        Some(PendingV::Create { name, .. }) => Some(RequestV::Create(name)),
        Some(PendingV::WriteAll { contents }) => Some(RequestV::Write(contents)),
        Some(PendingV::EditRead { name }) => Some(RequestV::Read(name)),
        Some(PendingV::Read { name, .. }) => Some(RequestV::Read(name)),
        None => None,
    }
}

/// How the caller's file work went.
pub enum FileReply {
    /// The file was created, or the text written.
    Done,
    /// The file was read; this is its text.
    Contents(String),
    /// The work failed with this error.
    Failed(std::io::Error),
}

pub enum FileReplyV {
    Done,
    Contents(Seq<char>),
    Failed,
}

pub open spec fn file_reply_view(f: FileReply) -> FileReplyV {
    match f {
        FileReply::Done => FileReplyV::Done,
        FileReply::Contents(t) => FileReplyV::Contents(t@),
        FileReply::Failed(_) => FileReplyV::Failed,
    }
}

/// What a session answers an input line or a file outcome with: the text
/// it prints, the file work it asks for, and whether it has ended (by `q`)
/// or stopped where it cannot go on.
pub struct Reply {
    pub output: String,
    pub request: Option<FileRequest>,
    pub finished: bool,
    pub halted: bool,
}

/// The state of a session.
pub struct ReplV {
    pub flow: CommandFlow,
    pub buffer: BufferV,
    pub parser: Option<(MlcV, AddressV)>,
    pub postfix: Option<KindV>,
    pub file: Option<Seq<char>>,
    pub snapshot: Option<SnapV>,
    pub exit_confirm: u32,
    pub edit_confirm: u32,
    pub yank: Option<Seq<Seq<char>>>,
    pub finished: bool,
    pub halted: bool,
    pub pending: Option<PendingV>,
    pub out: Seq<char>,
}

/// An editing session.
pub struct Repl {
    flow: CommandFlow,
    buffer: Buffer,
    parser: Parser,
    postfix_command: Option<CommandKind>,
    current_file: Option<String>,
    snapshot: Option<Snapshot>,
    exit_confirm: u32,
    edit_confirm: u32,
    yank_buffer: Option<Vec<String>>,
    finished: bool,
    halted: bool,
    pending: Option<Pending>,
    out: Vec<char>,
}

impl View for Repl {
    type V = ReplV;

    closed spec fn view(&self) -> ReplV {
        ReplV {
            flow: self.flow,
            buffer: self.buffer@,
            parser: self.parser@,
            postfix: opt_kind(self.postfix_command),
            file: opt_str(self.current_file),
            snapshot: opt_snap(self.snapshot),
            exit_confirm: self.exit_confirm,
            edit_confirm: self.edit_confirm,
            yank: opt_lines(self.yank_buffer),
            finished: self.finished,
            halted: self.halted,
            pending: opt_pending(self.pending),
            out: self.out@,
        }
    }
}

// ---------------------------------------------------------------------------
// What the buffer operations do, as functions of the buffer's state.
/// `set_range`: the range becomes the address's lines.
pub open spec fn buf_range(b: BufferV, a: AddressV) -> (BufferV, Result<(), ErrKind>) {
    let (r, re) = b.resolved(a);
    match r {
        Some(Ok(p)) => (BufferV { range: p, re, ..b }, Ok(())),
        Some(Err(k)) => (BufferV { re, ..b }, Err(k)),
        None => (b, Err(ErrKind::UnexpectedState)),
    }
}

/// `set_mode` (or `set_mode_insert`): range and current line for inserting.
pub open spec fn buf_mode(b: BufferV, a: AddressV, before: bool) -> (BufferV, Result<(), ErrKind>) {
    let (r, re) = b.resolved(a);
    match r {
        Some(Ok((x, y))) => if max(x, y) > b.text.len() {
            (BufferV { re, ..b }, Err(ErrKind::InvalidAddress))
        } else {
            let e: usize = if before {
                sat_sub1(y) as usize
            } else {
                y
            };
            (BufferV { range: (x, e), cur: e, re, ..b }, Ok(()))
        },
        Some(Err(k)) => (BufferV { re, ..b }, Err(k)),
        None => (b, Err(ErrKind::UnexpectedState)),
    }
}

/// `delete`: the lines of the range go, and are handed back.
pub open spec fn buf_delete(b: BufferV) -> (BufferV, Result<Seq<Seq<char>>, ErrKind>) {
    if span_ok(b.text.len(), b.range) {
        (
            BufferV {
                text: without(b.text, b.range),
                cur: min(b.range.0 as int, b.text.len() as int) as usize,
                ..b
            },
            Ok(b.text.subrange(b.range.0 - 1, b.range.1 as int)),
        )
    } else {
        (b, Err(ErrKind::InvalidRange))
    }
}

/// `get_lines`: the lines of the range; the last becomes current.
pub open spec fn buf_lines(b: BufferV) -> (BufferV, Result<Seq<Seq<char>>, ErrKind>) {
    if span_ok(b.text.len(), b.range) {
        (BufferV { cur: b.range.1, ..b }, Ok(b.text.subrange(b.range.0 - 1, b.range.1 as int)))
    } else {
        (b, Err(ErrKind::InvalidRange))
    }
}

/// `append`, line after line.
pub open spec fn buf_append_all(b: BufferV, block: Seq<Seq<char>>) -> BufferV {
    BufferV { text: inserted(b.text, b.cur as int, block), cur: (b.cur + block.len()) as usize, ..b }
}

/// The buffer as an outcome of `move_to`, `transfer` or `join` leaves it.
pub open spec fn buf_outcome(b: BufferV, o: Outcome) -> BufferV {
    BufferV { text: o.text, cur: o.cur, range: o.range, re: o.re, ..b }
}

/// A fresh buffer.
pub open spec fn empty_buffer() -> BufferV {
    BufferV {
        text: Seq::empty(),
        cur: 0,
        range: (0, 0),
        anchor: None,
        re: None,
        flag: None,
        subs: None,
        suffix: None,
    }
}

// ---------------------------------------------------------------------------
// What each command does to the session.
/// The session stopped where it cannot go on: an arithmetic overflow in an
/// address, or a command it does not carry out.
pub open spec fn halt(s: ReplV) -> (ReplV, Result<(), ErrKind>) {
    (ReplV { halted: true, ..s }, Ok(()))
}

/// The session with text printed.
pub open spec fn print(s: ReplV, t: Seq<char>) -> ReplV {
    ReplV { out: s.out + t, ..s }
}

/// A number printed on a line of its own.
pub open spec fn number_line(n: nat) -> Seq<char> {
    decimal(n) + seq!['\n']
}

/// The number of bytes of a text in UTF-8.
pub open spec fn byte_len(t: Seq<char>) -> nat {
    vstd::utf8::encode_utf8(t).len()
}

/// `q`: ends the session, unless the text changed since it was last
/// written; then only a second `q` in a row ends it.
#[verifier::opaque]
pub open spec fn quit_step(s: ReplV, a: AddressV) -> (ReplV, Result<(), ErrKind>) {
    if !(a is Absent) {
        (s, Err(ErrKind::InvalidAddress))
    } else if s.exit_confirm == u32::MAX {
        halt(s)
    } else {
        let e = (s.exit_confirm + 1) as u32;
        if s.snapshot is None || e == 2 {
            (ReplV { exit_confirm: e, finished: true, ..s }, Ok(()))
        } else {
            (print(ReplV { exit_confirm: e, ..s }, seq!['?', '\n']), Ok(()))
        }
    }
}

/// `a` and `i`: text input begins after (or before) the addressed line.
#[verifier::opaque]
pub open spec fn input_step(s: ReplV, a: AddressV, suffix: Option<KindV>, before: bool) -> (
    ReplV,
    Result<(), ErrKind>,
) {
    let s1 = ReplV { edit_confirm: 0, ..s };
    if !s.buffer.resolves(a) {
        halt(s1)
    } else {
        let (b, r) = buf_mode(s.buffer, a, before);
        match r {
            Err(k) => (ReplV { buffer: b, ..s1 }, Err(k)),
            Ok(_) => (
                ReplV {
                    buffer: b,
                    postfix: suffix,
                    flow: CommandFlow::Input,
                    snapshot: Some(snap_of(s.buffer)),
                    ..s1
                },
                Ok(()),
            ),
        }
    }
}

/// `c`: the lines of the range are deleted (and yanked); text input then
/// begins in their place.
#[verifier::opaque]
pub open spec fn change_step(s: ReplV, a: AddressV, suffix: Option<KindV>) -> (
    ReplV,
    Result<(), ErrKind>,
) {
    let s1 = ReplV { edit_confirm: 0, postfix: suffix, ..s };
    if !s.buffer.resolves(a) {
        halt(s1)
    } else {
        let (b1, r1) = buf_range(s.buffer, a);
        match r1 {
            Err(k) => (ReplV { buffer: b1, ..s1 }, Err(k)),
            Ok(_) => {
                let (b2, r2) = buf_delete(b1);
                match r2 {
                    Err(k) => (ReplV { buffer: b2, ..s1 }, Err(k)),
                    Ok(d) => if b2.range.0 == 0 {
                        (ReplV { buffer: b2, yank: Some(d), ..s1 }, Err(ErrKind::InvalidRange))
                    } else {
                        let at = (b2.range.0 - 1) as usize;
                        (
                            ReplV {
                                buffer: BufferV { cur: at, anchor: Some(at), ..b2 },
                                yank: Some(d),
                                flow: CommandFlow::Input,
                                snapshot: Some(snap_of(s.buffer)),
                                ..s1
                            },
                            Ok(()),
                        )
                    },
                }
            },
        }
    }
}

/// `d`: the lines of the range are deleted, and yanked.
#[verifier::opaque]
pub open spec fn delete_step(s: ReplV, a: AddressV, suffix: Option<KindV>) -> (
    ReplV,
    Result<(), ErrKind>,
) {
    let s1 = ReplV { edit_confirm: 0, ..s };
    if !s.buffer.resolves(a) {
        halt(s1)
    } else {
        let (b1, r1) = buf_range(s.buffer, a);
        match r1 {
            Err(k) => (ReplV { buffer: b1, ..s1 }, Err(k)),
            Ok(_) => {
                let (b2, r2) = buf_delete(b1);
                match r2 {
                    Err(k) => (ReplV { buffer: b2, ..s1 }, Err(k)),
                    Ok(d) => (
                        ReplV {
                            buffer: b2,
                            yank: Some(d),
                            postfix: suffix,
                            snapshot: Some(snap_of(s.buffer)),
                            ..s1
                        },
                        Ok(()),
                    ),
                }
            },
        }
    }
}

/// `l`, `n` and `p`: the lines of the range are printed, escaped (`l`) or
/// trimmed, and numbered (`n`) or not.
#[verifier::opaque]
pub open spec fn list_step(s: ReplV, a: AddressV, escaped: bool, numbered: bool) -> (
    ReplV,
    Result<(), ErrKind>,
) {
    if !s.buffer.resolves(a) {
        halt(s)
    } else {
        let (b1, r1) = buf_range(s.buffer, a);
        match r1 {
            Err(k) => (ReplV { buffer: b1, ..s }, Err(k)),
            Ok(_) => {
                let (b2, r2) = buf_lines(b1);
                match r2 {
                    Err(k) => (ReplV { buffer: b2, ..s }, Err(k)),
                    Ok(ls) => (
                        print(
                            ReplV { buffer: b2, ..s },
                            render_from(ls, escaped, numbered, b1.range.0 as nat, 0),
                        ),
                        Ok(()),
                    ),
                }
            },
        }
    }
}

/// An address alone (`3`): the last line of the range is printed and
/// becomes current.
#[verifier::opaque]
pub open spec fn active_step(s: ReplV, a: AddressV) -> (ReplV, Result<(), ErrKind>) {
    if !s.buffer.resolves(a) {
        halt(s)
    } else {
        let (b1, r1) = buf_range(s.buffer, a);
        match r1 {
            Err(k) => (ReplV { buffer: b1, ..s }, Err(k)),
            Ok(_) => {
                let i = sat_sub1(b1.range.1);
                if i < b1.text.len() {
                    (
                        print(
                            ReplV { buffer: BufferV { cur: b1.range.1, ..b1 }, ..s },
                            render_from(seq![b1.text[i]], false, false, b1.text.len(), 0),
                        ),
                        Ok(()),
                    )
                } else {
                    (ReplV { buffer: b1, ..s }, Err(ErrKind::InvalidRange))
                }
            },
        }
    }
}

/// `u`: the text, current line and range go back to the snapshot, which
/// then holds what they were; a second `u` undoes the first.
#[verifier::opaque]
pub open spec fn undo_step(s: ReplV, a: AddressV, suffix: Option<KindV>) -> (
    ReplV,
    Result<(), ErrKind>,
) {
    if !(a is Absent) {
        (s, Err(ErrKind::InvalidAddress))
    } else {
        match s.snapshot {
            Some(sn) => (
                ReplV {
                    edit_confirm: 0,
                    buffer: BufferV { text: sn.text, cur: sn.cur, range: sn.range, ..s.buffer },
                    snapshot: Some(snap_of(s.buffer)),
                    postfix: suffix,
                    ..s
                },
                Ok(()),
            ),
            None => (s, Err(ErrKind::NoData)),
        }
    }
}

/// `y`: the lines of the range are yanked.
#[verifier::opaque]
pub open spec fn yank_step(s: ReplV, a: AddressV) -> (ReplV, Result<(), ErrKind>) {
    if !s.buffer.resolves(a) {
        halt(s)
    } else {
        let (b1, r1) = buf_range(s.buffer, a);
        match r1 {
            Err(k) => (ReplV { buffer: b1, ..s }, Err(k)),
            Ok(_) => {
                let (b2, r2) = buf_lines(b1);
                match r2 {
                    Err(k) => (ReplV { buffer: b2, ..s }, Err(k)),
                    Ok(ls) => (ReplV { buffer: b2, yank: Some(ls), ..s }, Ok(())),
                }
            },
        }
    }
}

/// `x`: the yanked lines are put after the addressed line.
#[verifier::opaque]
pub open spec fn put_step(s: ReplV, a: AddressV) -> (ReplV, Result<(), ErrKind>) {
    match s.yank {
        None => (s, Err(ErrKind::NoData)),
        Some(y) => {
            let s1 = ReplV { edit_confirm: 0, ..s };
            if !s.buffer.resolves(a) {
                halt(s1)
            } else {
                let (b1, r1) = buf_mode(s.buffer, a, false);
                match r1 {
                    Err(k) => (ReplV { buffer: b1, ..s1 }, Err(k)),
                    Ok(_) => (
                        ReplV {
                            buffer: buf_append_all(b1, y),
                            snapshot: Some(snap_of(s.buffer)),
                            ..s1
                        },
                        Ok(()),
                    ),
                }
            }
        },
    }
}

/// `m` and `t`: the lines of the range are moved (or copied) after the
/// destination line.
#[verifier::opaque]
pub open spec fn relocate_step(s: ReplV, a: AddressV, dest: AddressV, copy: bool) -> (
    ReplV,
    Result<(), ErrKind>,
) {
    let s1 = ReplV { edit_confirm: 0, ..s };
    if !s.buffer.resolves(a) {
        halt(s1)
    } else {
        let (b1, r1) = buf_range(s.buffer, a);
        match r1 {
            Err(k) => (ReplV { buffer: b1, ..s1 }, Err(k)),
            Ok(_) => {
                let o = if copy {
                    transfer_spec(b1, dest)
                } else {
                    move_spec(b1, dest)
                };
                match o {
                    None => halt(ReplV { buffer: b1, ..s1 }),
                    Some(o) => match o.res {
                        Err(k) => (ReplV { buffer: buf_outcome(b1, o), ..s1 }, Err(k)),
                        Ok(_) => (
                            ReplV {
                                buffer: buf_outcome(b1, o),
                                snapshot: Some(snap_of(s.buffer)),
                                ..s1
                            },
                            Ok(()),
                        ),
                    },
                }
            },
        }
    }
}

/// `j`: the lines of the address are joined.
#[verifier::opaque]
pub open spec fn join_step(s: ReplV, a: AddressV) -> (ReplV, Result<(), ErrKind>) {
    let s1 = ReplV { edit_confirm: 0, ..s };
    match join_spec(s.buffer, a) {
        None => halt(s1),
        Some(o) => match o.res {
            Err(k) => (ReplV { buffer: buf_outcome(s.buffer, o), ..s1 }, Err(k)),
            Ok(_) => (
                ReplV {
                    buffer: buf_outcome(s.buffer, o),
                    snapshot: Some(snap_of(s.buffer)),
                    ..s1
                },
                Ok(()),
            ),
        },
    }
}

/// `f`: the file name is set, or printed.
#[verifier::opaque]
pub open spec fn file_step(s: ReplV, name: Option<Seq<char>>) -> (ReplV, Result<(), ErrKind>) {
    match name {
        Some(n) => (print(ReplV { file: Some(n), ..s }, n + seq!['\n']), Ok(())),
        None => match s.file {
            Some(n) => (print(s, n + seq!['\n']), Ok(())),
            None => (s, Err(ErrKind::InvalidFilename)),
        },
    }
}

/// `w`: asks for the file to be created; the name given becomes the
/// session's file name if it had none.
#[verifier::opaque]
pub open spec fn write_step(s: ReplV, a: AddressV, name: Option<Seq<char>>) -> (
    ReplV,
    Result<(), ErrKind>,
) {
    let s1 = if s.file is None {
        ReplV { file: name, ..s }
    } else {
        s
    };
    let n = if name is Some {
        name
    } else {
        s1.file
    };
    match n {
        None => (s1, Err(ErrKind::InvalidFilename)),
        Some(nm) => (ReplV { pending: Some(PendingV::Create { name: nm, address: a }), ..s1 }, Ok(())),
    }
}

/// `e`: unless the text changed since it was last written (then only a
/// second `e` in a row goes on), asks for the file to be read; the
/// session forgets its file name either way.
#[verifier::opaque]
pub open spec fn edit_step(s: ReplV, name: Option<Seq<char>>) -> (ReplV, Result<(), ErrKind>) {
    if s.edit_confirm == u32::MAX {
        halt(s)
    } else {
        let e = (s.edit_confirm + 1) as u32;
        let s1 = ReplV { edit_confirm: e, ..s };
        if s.snapshot is None || e == 2 {
            let n = if name is Some {
                name
            } else {
                s.file
            };
            let s2 = ReplV { file: None, ..s1 };
            match n {
                None => (s2, Err(ErrKind::InvalidFilename)),
                Some(nm) => (ReplV { pending: Some(PendingV::EditRead { name: nm }), ..s2 }, Ok(())),
            }
        } else {
            (s1, Err(ErrKind::EndOfInput))
        }
    }
}

/// `r`: asks for the file to be read; the name given becomes the session's
/// file name if it had none.
#[verifier::opaque]
pub open spec fn read_step(s: ReplV, a: AddressV, name: Option<Seq<char>>) -> (
    ReplV,
    Result<(), ErrKind>,
) {
    let s1 = if s.file is None {
        ReplV { file: name, ..s }
    } else {
        s
    };
    let n = if name is Some {
        name
    } else {
        s1.file
    };
    match n {
        None => (s1, Err(ErrKind::InvalidFilename)),
        Some(nm) => (
            ReplV {
                edit_confirm: 0,
                pending: Some(PendingV::Read { name: nm, address: a, snap: snap_of(s.buffer) }),
                ..s1
            },
            Ok(()),
        ),
    }
}

/// How a substitution reads its flag: whether every match is replaced,
/// which match is (0 for the first), whether the remembered flag is
/// updated and to what, and the print suffix that goes with it.
pub struct SubsPlan {
    pub global: bool,
    pub nth: int,
    pub update: bool,
    pub remembered: Option<Seq<char>>,
    pub suffix: Option<KindV>,
}

/// The plan for a substitution's flag, given the remembered flag; `None`
/// for the flag `0`. A full substitution without a flag prints its last
/// line (`p`) unless it has a suffix; `g` on a repeated substitution whose
/// remembered flag is `g` goes back to the default.
pub open spec fn subs_plan(
    flag: Option<Seq<char>>,
    last: Option<Seq<char>>,
    repeated: bool,
    suffix: Option<KindV>,
) -> Option<SubsPlan> {
    match flag {
        Some(f) => if f == seq!['g'] {
            if repeated && last == Some(seq!['g']) {
                Some(
                    SubsPlan {
                        global: false,
                        nth: 0,
                        update: true,
                        remembered: Some(seq!['d', 'e']),
                        suffix,
                    },
                )
            } else {
                Some(SubsPlan { global: true, nth: 0, update: true, remembered: Some(f), suffix })
            }
        } else if f == seq!['0'] {
            None
        } else {
            Some(
                SubsPlan { global: false, nth: flag_number(f), update: true, remembered: Some(f), suffix },
            )
        },
        None => if repeated {
            match last {
                Some(l) => if l == seq!['g'] {
                    Some(SubsPlan { global: true, nth: 0, update: false, remembered: None, suffix })
                } else {
                    Some(
                        SubsPlan {
                            global: false,
                            nth: flag_number(l),
                            update: false,
                            remembered: None,
                            suffix,
                        },
                    )
                },
                None => Some(SubsPlan { global: false, nth: 0, update: false, remembered: None, suffix }),
            }
        } else {
            Some(
                SubsPlan {
                    global: false,
                    nth: 0,
                    update: true,
                    remembered: Some(seq!['d', 'e']),
                    suffix: if suffix is None {
                        Some(KindV::PrintList)
                    } else {
                        suffix
                    },
                },
            )
        },
    }
}

/// One change a substitution makes: a line replaced (its number and its new
/// text), or a line appended after the current one.
pub type Change = (bool, usize, Seq<char>);

/// The changes a substitution makes to the lines `ls`, the first being
/// numbered `start`, and whether it replaced anything. Each substituted
/// line is cut after its newlines; its first piece replaces the line and
/// the others are appended after it.
pub open spec fn line_changes(
    ls: Seq<Seq<char>>,
    start: nat,
    src: Seq<char>,
    parts: Seq<Seq<char>>,
    nth: int,
    global: bool,
) -> (Seq<Change>, bool)
    decreases ls.len(),
{
    if ls.len() == 0 {
        (Seq::empty(), false)
    } else {
        let (prev, ok) = line_changes(ls.drop_last(), start, src, parts, nth, global);
        let line = ls.last();
        let n = (start + ls.len() - 1) as usize;
        let (out, hit) = substituted(
            line,
            regex_split(src, line),
            regex_captures(src, line),
            parts,
            nth,
            global,
        );
        let pieces = pieces_of(out);
        (prev + Seq::new(pieces.len(), |k: int| (k == 0, n, pieces[k])), ok || hit)
    }
}

/// One change made to the buffer.
pub open spec fn apply_one(b: BufferV, c: Change) -> (BufferV, Result<(), ErrKind>) {
    if c.0 {
        if 1 <= c.1 <= b.text.len() {
            (BufferV { text: b.text.update(c.1 - 1, c.2), cur: c.1, ..b }, Ok(()))
        } else {
            (b, Err(ErrKind::InvalidRange))
        }
    } else {
        (buf_append_all(b, seq![c.2]), Ok(()))
    }
}

/// The changes made in turn, up to the first that fails.
pub open spec fn apply_changes(b: BufferV, cs: Seq<Change>) -> (BufferV, Result<(), ErrKind>)
    decreases cs.len(),
{
    if cs.len() == 0 {
        (b, Ok(()))
    } else {
        let (b1, r1) = apply_changes(b, cs.drop_last());
        match r1 {
            Err(k) => (b1, Err(k)),
            Ok(_) => apply_one(b1, cs.last()),
        }
    }
}

/// Whether a repeated substitution's print suffix is the one remembered,
/// which it then turns off.
pub open spec fn toggles_off(k: KindV, last: Option<KindV>) -> bool {
    ||| k is List && last == Some(KindV::List)
    ||| k is NumberedList && last == Some(KindV::NumberedList)
    ||| k is PrintList && last == Some(KindV::PrintList)
}

/// `s`: the matches of the regular expression (by default the remembered
/// one) in the lines of the range are replaced: every match with `g`, the
/// `n`th with a number, else the first. The replacement, flag and print
/// suffix are remembered; a repeated substitution reuses them. Where no
/// line matched, the buffer is left as it was.
#[verifier::opaque]
pub open spec fn subst_step(
    s: ReplV,
    a: AddressV,
    re: Option<Seq<char>>,
    sub: Seq<Seq<char>>,
    flag: Option<Seq<char>>,
    repeated: bool,
    suffix: Option<KindV>,
) -> (ReplV, Result<(), ErrKind>) {
    let s1 = ReplV { edit_confirm: 0, ..s };
    let snap = snap_of(s.buffer);
    match subs_plan(flag, s.buffer.flag, repeated, suffix) {
        None => (s1, Err(ErrKind::InvalidAddress)),
        Some(plan) => {
            let b0 = if re is Some {
                BufferV { re, ..s.buffer }
            } else {
                s.buffer
            };
            match b0.re {
                None => (ReplV { buffer: b0, ..s1 }, Err(ErrKind::RegexNotFound)),
                Some(src) => if !regex_compiles(src) {
                    (ReplV { buffer: b0, ..s1 }, Err(ErrKind::RegexError))
                } else if !b0.resolves(a) {
                    halt(ReplV { buffer: b0, ..s1 })
                } else {
                    let (b1, r1) = buf_range(b0, a);
                    if r1 is Err {
                        (ReplV { buffer: b1, ..s1 }, r1)
                    } else {
                        let previous = b1.subs;
                        let b2 = BufferV { subs: None, ..b1 };
                        if repeated && previous is None {
                            (ReplV { buffer: b2, ..s1 }, Err(ErrKind::NoData))
                        } else {
                            let sub2 = if repeated {
                                previous->0
                            } else {
                                sub
                            };
                            let prev2 = if repeated {
                                None
                            } else {
                                previous
                            };
                            subst_lines(ReplV { buffer: b2, ..s1 }, snap, src, sub2, prev2, repeated, plan)
                        }
                    }
                },
            }
        },
    }
}

/// The substitution once its expression and range are known: a
/// replacement of just `%` is the previous one. The changes are made where
/// some line matched; else the buffer goes back to the snapshot.
#[verifier::opaque]
pub open spec fn subst_lines(
    s: ReplV,
    snap: SnapV,
    src: Seq<char>,
    sub2: Seq<Seq<char>>,
    prev2: Option<Seq<Seq<char>>>,
    repeated: bool,
    plan: SubsPlan,
) -> (ReplV, Result<(), ErrKind>) {
    let use_prev = sub2.len() == 1 && sub2[0] == seq!['%'];
    if use_prev && !repeated && prev2 is None {
        (s, Err(ErrKind::NoData))
    } else {
        let replacement = if use_prev && prev2 is Some {
            prev2->0
        } else {
            sub2
        };
        let restored = if repeated {
            Some(sub2)
        } else {
            prev2
        };
        let (b3, r3) = buf_lines(s.buffer);
        match r3 {
            Err(k) => (ReplV { buffer: BufferV { subs: restored, ..b3 }, ..s }, Err(k)),
            Ok(ls) => {
                let (changes, success) = line_changes(
                    ls,
                    s.buffer.range.0 as nat,
                    src,
                    replacement,
                    plan.nth,
                    plan.global,
                );
                if !success {
                    (
                        ReplV {
                            buffer: BufferV {
                                text: snap.text,
                                cur: snap.cur,
                                range: snap.range,
                                subs: restored,
                                ..b3
                            },
                            ..s
                        },
                        Err(ErrKind::RegexNotFound),
                    )
                } else {
                    let (b4, r4) = apply_changes(b3, changes);
                    if r4 is Err {
                        (ReplV { buffer: b4, ..s }, r4)
                    } else {
                        subst_finish(ReplV { buffer: b4, ..s }, snap, sub2, repeated, plan)
                    }
                }
            },
        }
    }
}

/// The end of a substitution that changed the text: the replacement and
/// flag are remembered, the print suffix is updated (a repeated one that is
/// already remembered turns it off) and, if set, the current line is printed.
#[verifier::opaque]
pub open spec fn subst_finish(
    s: ReplV,
    snap: SnapV,
    sub2: Seq<Seq<char>>,
    repeated: bool,
    plan: SubsPlan,
) -> (ReplV, Result<(), ErrKind>) {
    let b4 = s.buffer;
    let b5 = BufferV {
        subs: Some(sub2),
        flag: if plan.update {
            plan.remembered
        } else {
            b4.flag
        },
        ..b4
    };
    let (last, run) = if repeated {
        match plan.suffix {
            Some(k) => if toggles_off(k, b5.suffix) {
                (None, false)
            } else {
                (Some(k), true)
            },
            None => (b5.suffix, b5.suffix is Some),
        }
    } else {
        (plan.suffix, plan.suffix is Some)
    };
    let b6 = BufferV { suffix: last, ..b5 };
    let done = ReplV { buffer: b6, postfix: None, snapshot: Some(snap), ..s };
    if run && print_only(last) is Some {
        let k = last->0;
        let b7 = BufferV { range: (b6.cur, b6.cur), ..b6 };
        let (b8, r8) = buf_lines(b7);
        match r8 {
            Err(e) => (ReplV { buffer: b8, ..s }, Err(e)),
            Ok(ls2) => (
                print(
                    ReplV { buffer: b8, ..done },
                    render_from(ls2, k is List, k is NumberedList, b7.range.0 as nat, 0),
                ),
                Ok(()),
            ),
        }
    } else {
        (done, Ok(()))
    }
}

/// What a command does to the session.
pub open spec fn command_step(s: ReplV, c: CommandV) -> (ReplV, Result<(), ErrKind>) {
    let s0 = if c.kind is Quit {
        s
    } else {
        ReplV { exit_confirm: 0, ..s }
    };
    match c.kind {
        KindV::Quit => quit_step(s0, c.address),
        KindV::Append => input_step(s0, c.address, c.suffix, false),
        KindV::Insert => input_step(s0, c.address, c.suffix, true),
        KindV::Change => change_step(s0, c.address, c.suffix),
        KindV::Write(n) => write_step(s0, c.address, n),
        KindV::Edit(n) => edit_step(s0, n),
        KindV::List => list_step(s0, c.address, true, false),
        KindV::NumberedList => list_step(s0, c.address, false, true),
        KindV::PrintList => list_step(s0, c.address, false, false),
        KindV::Delete => delete_step(s0, c.address, c.suffix),
        KindV::InternalListLastAffectedLine => active_step(s0, c.address),
        KindV::Undo => undo_step(s0, c.address, c.suffix),
        KindV::Read(n) => read_step(s0, c.address, n),
        KindV::Yank => yank_step(s0, c.address),
        KindV::Transfer(d) => relocate_step(s0, c.address, d, true),
        KindV::Put => put_step(s0, c.address),
        KindV::Move(d) => relocate_step(s0, c.address, d, false),
        KindV::Join => join_step(s0, c.address),
        KindV::NoOp => (s0, Ok(())),
        KindV::MultiLineCommand(_) => halt(s0),
        KindV::Substitution { re, sub, flag, repeated } => subst_step(
            s0,
            c.address,
            re,
            sub,
            flag,
            repeated,
            c.suffix,
        ),
        KindV::File(n) => file_step(s0, n),
    }
}

/// The well-formedness of a session: while text is input, the current line
/// lies within the text; file work is only ever awaited in command mode.
pub open spec fn session_ok(s: ReplV) -> bool {
    &&& s.flow == CommandFlow::Input ==> s.buffer.cur <= s.buffer.text.len()
    &&& s.pending is Some ==> s.flow == CommandFlow::Command
}


/// The state of a new session.
pub open spec fn initial() -> ReplV {
    ReplV {
        flow: CommandFlow::Command,
        buffer: empty_buffer(),
        parser: None,
        postfix: None,
        file: None,
        snapshot: None,
        exit_confirm: 0,
        edit_confirm: 0,
        yank: None,
        finished: false,
        halted: false,
        pending: None,
        out: Seq::empty(),
    }
}

/// The session after `e` read the file: everything starts afresh, with the
/// file's lines as the text and its name as the file name.
pub open spec fn fresh(s: ReplV, name: Seq<char>, t: Seq<char>) -> ReplV {
    ReplV {
        buffer: buf_append_all(empty_buffer(), lines_of(t)),
        file: Some(name),
        out: s.out,
        ..initial()
    }
}

/// The end of text input: `exit_mode` on the buffer.
pub open spec fn exit_mode_spec(b: BufferV) -> BufferV {
    BufferV {
        anchor: None,
        cur: if b.anchor == Some(b.cur) {
            min(b.cur + 1, b.text.len() as int) as usize
        } else {
            b.cur
        },
        ..b
    }
}

/// The print command a command left to run after it, if any, run with no
/// address; an error in it prints `?`.
pub open spec fn postfix_spec(s: ReplV) -> ReplV {
    match s.postfix {
        None => s,
        Some(k) => {
            let (s2, r) = command_step(
                ReplV { postfix: None, ..s },
                CommandV { address: AddressV::Absent, kind: k, suffix: None },
            );
            if s2.halted || s2.pending is Some {
                s2
            } else if r is Err {
                print(s2, seq!['?', '\n'])
            } else {
                s2
            }
        },
    }
}

/// After a command: an error prints `?`; then, unless text input begins,
/// the command's print suffix runs. Nothing of this happens while the
/// command waits for file work, or after a halt.
pub open spec fn after_spec(s: ReplV, r: Result<(), ErrKind>) -> ReplV {
    if s.halted || s.pending is Some {
        s
    } else {
        let s1 = if r is Err {
            print(s, seq!['?', '\n'])
        } else {
            s
        };
        if s1.flow != CommandFlow::Input {
            postfix_spec(s1)
        } else {
            s1
        }
    }
}

/// Whether an input line ends text input: a line that starts with `.` and
/// is `.` once trimmed.
pub open spec fn ends_input(line: Seq<char>) -> bool {
    line.len() > 0 && line[0] == '.' && trim(line) == seq!['.']
}

/// What one input line does to the session; the output starts empty. A
/// session that has ended, halted or waits for file work ignores lines.
pub open spec fn feed_spec(s: ReplV, line: Seq<char>) -> ReplV {
    let s0 = ReplV { out: Seq::empty(), ..s };
    if s.finished || s.halted || s.pending is Some {
        s0
    } else if s.flow == CommandFlow::Input {
        if ends_input(line) {
            postfix_spec(
                ReplV { flow: CommandFlow::Command, buffer: exit_mode_spec(s.buffer), ..s0 },
            )
        } else {
            ReplV { buffer: buf_append_all(s.buffer, seq![line]), ..s0 }
        }
    } else {
        match parse_line(s.parser, line) {
            None => ReplV { halted: true, parser: None, ..s0 },
            Some((res, p)) => {
                let s1 = ReplV { parser: p, ..s0 };
                match res {
                    Err(k) => after_spec(s1, Err(k)),
                    Ok(c) => {
                        let (s2, r) = command_step(s1, c);
                        after_spec(s2, r)
                    },
                }
            },
        }
    }
}

/// How pending file work ends, given the caller's outcome.
pub open spec fn finish_step(s: ReplV, p: PendingV, f: FileReplyV) -> (
    ReplV,
    Result<(), ErrKind>,
) {
    match p {
        PendingV::Create { name, address } => match f {
            FileReplyV::Done => if !(address is Absent || s.buffer.resolves(address)) {
                halt(s)
            } else {
                let b = BufferV { re: save_range(s.buffer, address).1, ..s.buffer };
                match saved_text(s.buffer, address) {
                    Err(k) => (ReplV { buffer: b, ..s }, Err(k)),
                    Ok(t) => (
                        ReplV { buffer: b, pending: Some(PendingV::WriteAll { contents: t }), ..s },
                        Ok(()),
                    ),
                }
            },
            FileReplyV::Failed => (s, Err(ErrKind::IoError)),
            _ => (s, Err(ErrKind::UnexpectedState)),
        },
        PendingV::WriteAll { contents } => match f {
            FileReplyV::Done => (
                print(ReplV { snapshot: None, ..s }, number_line(byte_len(contents))),
                Ok(()),
            ),
            FileReplyV::Failed => (s, Err(ErrKind::IoError)),
            _ => (s, Err(ErrKind::UnexpectedState)),
        },
        PendingV::EditRead { name } => match f {
            FileReplyV::Contents(t) => (print(fresh(s, name, t), number_line(byte_len(t))), Ok(())),
            FileReplyV::Failed => (s, Err(ErrKind::IoError)),
            _ => (s, Err(ErrKind::UnexpectedState)),
        },
        PendingV::Read { name, address, snap } => match f {
            FileReplyV::Contents(t) => if !s.buffer.resolves(address) {
                halt(s)
            } else {
                let (b1, r1) = buf_mode(s.buffer, address, false);
                match r1 {
                    Err(k) => (ReplV { buffer: b1, ..s }, Err(k)),
                    Ok(_) => (
                        print(
                            ReplV {
                                buffer: buf_append_all(b1, lines_of(t)),
                                snapshot: Some(snap),
                                ..s
                            },
                            number_line(byte_len(t)),
                        ),
                        Ok(()),
                    ),
                }
            },
            FileReplyV::Failed => (s, Err(ErrKind::IoError)),
            _ => (s, Err(ErrKind::UnexpectedState)),
        },
    }
}

/// What the outcome of file work does to the session; the output starts
/// empty. Without pending work it changes nothing else.
pub open spec fn resume_spec(s: ReplV, f: FileReplyV) -> ReplV {
    let s0 = ReplV { out: Seq::empty(), ..s };
    match s.pending {
        None => s0,
        Some(p) => {
            let (s2, r) = finish_step(ReplV { pending: None, ..s0 }, p, f);
            after_spec(s2, r)
        },
    }
}

/// The reply tells the session's output, request and ending.
pub open spec fn answers(r: Reply, s: ReplV) -> bool {
    &&& r.output@ == s.out
    &&& request_view(r.request) == request_of(s.pending)
    &&& r.finished == s.finished
    &&& r.halted == s.halted
}

fn clone_name(o: &Option<String>) -> (r: Option<String>)
    ensures
        opt_str(r) == opt_str(*o),
{
    match o {
        Some(s) => Some(s.clone()),
        None => None,
    }
}

fn copy_strings(v: &Vec<String>) -> (r: Vec<String>)
    ensures
        strs(r) == strs(*v),
{
    let mut out: Vec<String> = Vec::new();
    let mut i: usize = 0;
    while i < v.len()
        invariant
            i <= v@.len(),
            strs(out) == strs(*v).take(i as int),
        decreases v@.len() - i,
    {
        let ghost before = strs(out);
        let c = v[i].clone();
        out.push(c);
        assert(strs(out) =~= before.push(c@));
        assert(strs(*v).take(i + 1) =~= strs(*v).take(i as int).push(v@[i as int]@));
        i = i + 1;
    }
    assert(strs(*v).take(i as int) =~= strs(*v));
    out
}

/// The lines of a text, as `str::lines` cuts them.
fn text_lines(t: &str) -> (r: Vec<String>)
    ensures
        strs(r) == lines_of(t@),
{
    let cs = chars_of(t);
    let parts = split_lines(cs.as_slice());
    let ghost want = parts@.map_values(|v: Vec<char>| v@);
    let mut out: Vec<String> = Vec::new();
    let mut i: usize = 0;
    while i < parts.len()
        invariant
            i <= parts@.len(),
            want == parts@.map_values(|v: Vec<char>| v@),
            strs(out) == want.take(i as int),
        decreases parts@.len() - i,
    {
        let ghost before = strs(out);
        let line = string_from_chars(parts[i].as_slice());
        out.push(line);
        assert(strs(out) =~= before.push(line@));
        assert(want.take(i + 1) =~= want.take(i as int).push(parts@[i as int]@));
        i = i + 1;
    }
    assert(want.take(i as int) =~= want);
    out
}

/// Whether an input line ends text input (see `ends_input`).
fn line_ends_input(line: &str) -> (r: bool)
    ensures
        r == ends_input(line@),
{
    let cs = chars_of(line);
    if cs.len() == 0 || cs[0] != '.' {
        return false;
    }
    let t = trim_chars(cs.as_slice());
    if t.len() == 1 && t[0] == '.' {
        assert(t@ =~= seq!['.']);
        true
    } else {
        false
    }
}

/// How a substitution reads its flag (see `SubsPlan`).
struct Plan {
    global: bool,
    nth: i32,
    update: bool,
    remembered: Option<String>,
    suffix: Option<CommandKind>,
}

spec fn plan_view(p: Plan) -> SubsPlan {
    SubsPlan {
        global: p.global,
        nth: p.nth as int,
        update: p.update,
        remembered: opt_str(p.remembered),
        suffix: opt_kind(p.suffix),
    }
}

/// Whether a text is the one character `c`.
fn is_single(t: &String, c: char) -> (r: bool)
    ensures
        r == (t@ == seq![c]),
{
    let cs = chars_of(t.as_str());
    if cs.len() == 1 && cs[0] == c {
        assert(cs@ =~= seq![c]);
        true
    } else {
        false
    }
}

/// The flag remembered by default: `de`.
fn default_flag() -> (r: String)
    ensures
        r@ == seq!['d', 'e'],
{
    let mut v: Vec<char> = Vec::new();
    v.push('d');
    v.push('e');
    assert(v@ =~= seq!['d', 'e']);
    string_from_chars(v.as_slice())
}

/// The plan for a substitution's flag (see `subs_plan`).
fn plan_for(
    flag: Option<String>,
    last: Option<String>,
    repeated: bool,
    suffix: Option<CommandKind>,
) -> (r: Option<Plan>)
    ensures
        match r {
            Some(p) => subs_plan(opt_str(flag), opt_str(last), repeated, opt_kind(suffix)) == Some(
                plan_view(p),
            ),
            None => subs_plan(opt_str(flag), opt_str(last), repeated, opt_kind(suffix)) is None,
        },
{
    match flag {
        Some(f) => {
            if is_single(&f, 'g') {
                let last_g = match &last {
                    Some(l) => is_single(l, 'g'),
                    None => false,
                };
                if repeated && last_g {
                    Some(
                        Plan {
                            global: false,
                            nth: 0,
                            update: true,
                            remembered: Some(default_flag()),
                            suffix,
                        },
                    )
                } else {
                    Some(Plan { global: true, nth: 0, update: true, remembered: Some(f), suffix })
                }
            } else if is_single(&f, '0') {
                None
            } else {
                let n = parse_flag_number(f.as_str());
                Some(Plan { global: false, nth: n, update: true, remembered: Some(f), suffix })
            }
        },
        None => if repeated {
            match last {
                Some(l) => if is_single(&l, 'g') {
                    Some(Plan { global: true, nth: 0, update: false, remembered: None, suffix })
                } else {
                    let n = parse_flag_number(l.as_str());
                    Some(Plan { global: false, nth: n, update: false, remembered: None, suffix })
                },
                None => Some(Plan { global: false, nth: 0, update: false, remembered: None, suffix }),
            }
        } else {
            let shown = match suffix {
                None => Some(CommandKind::PrintList),
                Some(k) => Some(k),
            };
            Some(
                Plan {
                    global: false,
                    nth: 0,
                    update: true,
                    remembered: Some(default_flag()),
                    suffix: shown,
                },
            )
        },
    }
}

pub open spec fn changes_view(v: Vec<(bool, usize, String)>) -> Seq<Change> {
    v@.map_values(|c: (bool, usize, String)| (c.0, c.1, c.2@))
}

/// The changes a substitution makes to the lines shown (see `line_changes`).
fn collect_changes(
    view: &BufferView,
    pat: &Pattern,
    parts: &Vec<String>,
    nth: i32,
    global: bool,
) -> (r: (Vec<(bool, usize, String)>, bool))
    requires
        view.start() + view.shown().len() <= usize::MAX + 1,
    ensures
        (changes_view(r.0), r.1) == line_changes(
            view.shown(),
            view.start() as nat,
            pat@,
            strs(*parts),
            nth as int,
            global,
        ),
{
    let count = view.count();
    let start = view.first_number();
    let ghost shown = view.shown();
    let ghost ps = strs(*parts);
    let mut changes: Vec<(bool, usize, String)> = Vec::new();
    let mut success = false;
    let mut i: usize = 0;
    while i < count
        invariant
            i <= count,
            count == shown.len(),
            shown == view.shown(),
            ps == strs(*parts),
            start == view.start(),
            start + count <= usize::MAX + 1,
            (changes_view(changes), success) == line_changes(
                shown.take(i as int),
                start as nat,
                pat@,
                ps,
                nth as int,
                global,
            ),
        decreases count - i,
    {
        let line = view.line(i);
        let (out, hit) = substitute_line(pat, line.as_str(), parts, nth, global);
        let out_chars = chars_of(out.as_str());
        let pieces = split_inclusive_newline(out_chars.as_slice());
        let ghost pv = pieces@.map_values(|v: Vec<char>| v@);
        let n = start + i;
        let ghost before = changes_view(changes);
        let mut k: usize = 0;
        while k < pieces.len()
            invariant
                k <= pieces@.len(),
                pv == pieces@.map_values(|v: Vec<char>| v@),
                changes_view(changes) == before + Seq::new(
                    k as nat,
                    |m: int| (m == 0, n, pv[m]),
                ),
            decreases pieces@.len() - k,
        {
            let piece = string_from_chars(pieces[k].as_slice());
            let ghost prev = changes_view(changes);
            changes.push((k == 0, n, piece));
            assert(changes_view(changes) =~= prev.push((k == 0, n, piece@)));
            assert(changes_view(changes) =~= before + Seq::new(
                (k + 1) as nat,
                |m: int| (m == 0, n, pv[m]),
            ));
            k = k + 1;
        }
        success = success || hit;
        assert(shown.take(i + 1).drop_last() =~= shown.take(i as int));
        assert(shown.take(i + 1).last() == shown[i as int]);
        i = i + 1;
    }
    assert(shown.take(count as int) =~= shown);
    (changes, success)
}

/// Whether a print suffix is the one remembered (see `toggles_off`).
fn same_print(k: &CommandKind, last: &Option<CommandKind>) -> (r: bool)
    ensures
        r == toggles_off(k@, opt_kind(*last)),
{
    match (k, last) {
        (CommandKind::List, Some(CommandKind::List)) => true,
        (CommandKind::NumberedList, Some(CommandKind::NumberedList)) => true,
        (CommandKind::PrintList, Some(CommandKind::PrintList)) => true,
        _ => false,
    }
}

/// Once a change fails, the later ones are not made.
proof fn lemma_apply_stops(b: BufferV, cs: Seq<Change>, j: int)
    requires
        0 <= j <= cs.len(),
        apply_changes(b, cs.take(j)).1 is Err,
    ensures
        apply_changes(b, cs) == apply_changes(b, cs.take(j)),
    decreases cs.len() - j,
{
    if j < cs.len() {
        assert(cs.take(j + 1).drop_last() =~= cs.take(j));
        lemma_apply_stops(b, cs, j + 1);
    } else {
        assert(cs.take(j) =~= cs);
    }
}

impl Repl {
    /// A new session: an empty buffer, in command mode.
    pub fn new() -> (r: Self)
        ensures
            r@ == initial(),
    {
        let r = Repl {
            flow: CommandFlow::Command,
            buffer: Buffer::new(),
            parser: Parser::new(),
            postfix_command: None,
            current_file: None,
            snapshot: None,
            exit_confirm: 0,
            edit_confirm: 0,
            yank_buffer: None,
            finished: false,
            halted: false,
            pending: None,
            out: Vec::new(),
        };
        assert(r@.buffer == empty_buffer());
        assert(r@.out =~= Seq::<char>::empty());
        r
    }

    /// Prints text.
    fn emit(&mut self, t: &str)
        ensures
            final(self)@ == print(old(self)@, t@),
    {
        let mut cs = chars_of(t);
        self.out.append(&mut cs);
    }

    /// Prints `?` on a line of its own.
    fn emit_error(&mut self)
        ensures
            final(self)@ == print(old(self)@, seq!['?', '\n']),
    {
        self.out.push('?');
        self.out.push('\n');
        assert(self.out@ =~= old(self).out@ + seq!['?', '\n']);
    }

    /// Prints a number on a line of its own.
    fn emit_number(&mut self, n: usize)
        ensures
            final(self)@ == print(old(self)@, number_line(n as nat)),
    {
        push_decimal(n as u128, &mut self.out);
        self.out.push('\n');
        assert(self.out@ =~= old(self).out@ + number_line(n as nat));
    }

    /// Prints a name on a line of its own.
    fn emit_line(&mut self, t: &str)
        ensures
            final(self)@ == print(old(self)@, t@ + seq!['\n']),
    {
        self.emit(t);
        self.out.push('\n');
        assert(self.out@ =~= old(self).out@ + (t@ + seq!['\n']));
    }

    /// A snapshot of the buffer, for undo; a pending `e` confirmation is
    /// forgotten.
    fn save_snapshot(&mut self) -> (r: Snapshot)
        ensures
            final(self)@ == (ReplV { edit_confirm: 0, ..old(self)@ }),
            snap_view(r) == snap_of(old(self)@.buffer),
    {
        self.edit_confirm = 0;
        self.buffer.save_snapshot()
    }

    /// Appends lines after the current line.
    fn append_lines(&mut self, block: &Vec<String>)
        requires
            old(self)@.buffer.cur <= old(self)@.buffer.text.len(),
        ensures
            final(self)@ == (ReplV { buffer: buf_append_all(old(self)@.buffer, strs(*block)), ..old(self)@ }),
    {
        self.buffer.append_all(block);
    }

    fn do_quit(&mut self, address: &Address) -> (r: Result<(), EdError>)
        requires
            old(self)@.flow == CommandFlow::Command,
            old(self)@.pending is None,
        ensures
            (final(self)@, result_kind(r)) == quit_step(old(self)@, address@),
            session_ok(final(self)@),
    {
        proof {
            reveal(quit_step);
        }
        if !address.is_none() {
            return Err(EdError::InvalidAddress);
        }
        if self.exit_confirm == u32::MAX {
            self.halted = true;
            return Ok(());
        }
        self.exit_confirm = self.exit_confirm + 1;
        if self.snapshot.is_none() || self.exit_confirm == 2 {
            self.finished = true;
        } else {
            self.emit_error();
        }
        Ok(())
    }

    fn do_input(&mut self, address: &Address, suffix: Option<CommandKind>, before: bool) -> (r:
        Result<(), EdError>)
        requires
            old(self)@.flow == CommandFlow::Command,
            old(self)@.pending is None,
        ensures
            (final(self)@, result_kind(r)) == input_step(old(self)@, address@, opt_kind(suffix), before),
            session_ok(final(self)@),
    {
        proof {
            reveal(input_step);
        }
        let snapshot = self.save_snapshot();
        if !self.buffer.address_resolves(address) {
            self.halted = true;
            return Ok(());
        }
        let r = if before {
            self.buffer.set_mode_insert(address)
        } else {
            self.buffer.set_mode(address)
        };
        match r {
            Err(e) => {
                return Err(e);
            },
            Ok(()) => {},
        }
        self.postfix_command = suffix;
        self.flow = CommandFlow::Input;
        self.snapshot = Some(snapshot);
        Ok(())
    }

    fn do_change(&mut self, address: &Address, suffix: Option<CommandKind>) -> (r: Result<(), EdError>)
        requires
            old(self)@.flow == CommandFlow::Command,
            old(self)@.pending is None,
        ensures
            (final(self)@, result_kind(r)) == change_step(old(self)@, address@, opt_kind(suffix)),
            session_ok(final(self)@),
    {
        proof {
            reveal(change_step);
        }
        let snapshot = self.save_snapshot();
        self.postfix_command = suffix;
        if !self.buffer.address_resolves(address) {
            self.halted = true;
            return Ok(());
        }
        match self.buffer.set_range(address) {
            Err(e) => {
                return Err(e);
            },
            Ok(()) => {},
        }
        let deleted = match self.buffer.delete() {
            Err(e) => {
                return Err(e);
            },
            Ok(d) => d,
        };
        self.yank_buffer = Some(deleted);
        match self.buffer.adj_change() {
            Err(e) => {
                return Err(e);
            },
            Ok(()) => {},
        }
        self.flow = CommandFlow::Input;
        self.snapshot = Some(snapshot);
        Ok(())
    }

    fn do_delete(&mut self, address: &Address, suffix: Option<CommandKind>) -> (r: Result<(), EdError>)
        requires
            old(self)@.flow == CommandFlow::Command,
            old(self)@.pending is None,
        ensures
            (final(self)@, result_kind(r)) == delete_step(old(self)@, address@, opt_kind(suffix)),
            session_ok(final(self)@),
    {
        proof {
            reveal(delete_step);
        }
        let snapshot = self.save_snapshot();
        if !self.buffer.address_resolves(address) {
            self.halted = true;
            return Ok(());
        }
        match self.buffer.set_range(address) {
            Err(e) => {
                return Err(e);
            },
            Ok(()) => {},
        }
        let deleted = match self.buffer.delete() {
            Err(e) => {
                return Err(e);
            },
            Ok(d) => d,
        };
        self.yank_buffer = Some(deleted);
        self.postfix_command = suffix;
        self.snapshot = Some(snapshot);
        Ok(())
    }

    fn do_list(&mut self, address: &Address, escaped: bool, numbered: bool) -> (r: Result<(), EdError>)
        requires
            old(self)@.flow == CommandFlow::Command,
            old(self)@.pending is None,
        ensures
            (final(self)@, result_kind(r)) == list_step(old(self)@, address@, escaped, numbered),
            session_ok(final(self)@),
    {
        proof {
            reveal(list_step);
        }
        if !self.buffer.address_resolves(address) {
            self.halted = true;
            return Ok(());
        }
        match self.buffer.set_range(address) {
            Err(e) => {
                return Err(e);
            },
            Ok(()) => {},
        }
        let text = match self.buffer.get_lines() {
            Err(e) => {
                return Err(e);
            },
            Ok(v) => {
                let v = if escaped {
                    v.well_defined()
                } else {
                    v
                };
                let v = if numbered {
                    v.numbered()
                } else {
                    v
                };
                v.render()
            },
        };
        self.emit(text.as_str());
        Ok(())
    }

    fn do_active(&mut self, address: &Address) -> (r: Result<(), EdError>)
        requires
            old(self)@.flow == CommandFlow::Command,
            old(self)@.pending is None,
        ensures
            (final(self)@, result_kind(r)) == active_step(old(self)@, address@),
            session_ok(final(self)@),
    {
        proof {
            reveal(active_step);
        }
        if !self.buffer.address_resolves(address) {
            self.halted = true;
            return Ok(());
        }
        match self.buffer.set_range(address) {
            Err(e) => {
                return Err(e);
            },
            Ok(()) => {},
        }
        let text = match self.buffer.get_active_line() {
            Err(e) => {
                return Err(e);
            },
            Ok(v) => v.render(),
        };
        self.emit(text.as_str());
        Ok(())
    }

    fn do_undo(&mut self, address: &Address, suffix: Option<CommandKind>) -> (r: Result<(), EdError>)
        requires
            old(self)@.flow == CommandFlow::Command,
            old(self)@.pending is None,
        ensures
            (final(self)@, result_kind(r)) == undo_step(old(self)@, address@, opt_kind(suffix)),
            session_ok(final(self)@),
    {
        proof {
            reveal(undo_step);
        }
        if !address.is_none() {
            return Err(EdError::InvalidAddress);
        }
        match self.snapshot.take() {
            Some(restore) => {
                let snapshot = self.save_snapshot();
                self.buffer.restore_snapshot(restore);
                self.snapshot = Some(snapshot);
                self.postfix_command = suffix;
                Ok(())
            },
            None => Err(EdError::NoData),
        }
    }

    fn do_yank(&mut self, address: &Address) -> (r: Result<(), EdError>)
        requires
            old(self)@.flow == CommandFlow::Command,
            old(self)@.pending is None,
        ensures
            (final(self)@, result_kind(r)) == yank_step(old(self)@, address@),
            session_ok(final(self)@),
    {
        proof {
            reveal(yank_step);
        }
        if !self.buffer.address_resolves(address) {
            self.halted = true;
            return Ok(());
        }
        match self.buffer.set_range(address) {
            Err(e) => {
                return Err(e);
            },
            Ok(()) => {},
        }
        let yanked = match self.buffer.get_lines() {
            Err(e) => {
                return Err(e);
            },
            Ok(v) => v.into_lines(),
        };
        self.yank_buffer = Some(yanked);
        Ok(())
    }

    fn do_put(&mut self, address: &Address) -> (r: Result<(), EdError>)
        requires
            old(self)@.flow == CommandFlow::Command,
            old(self)@.pending is None,
        ensures
            (final(self)@, result_kind(r)) == put_step(old(self)@, address@),
            session_ok(final(self)@),
    {
        proof {
            reveal(put_step);
        }
        let block = match &self.yank_buffer {
            None => {
                return Err(EdError::NoData);
            },
            Some(y) => copy_strings(y),
        };
        let snapshot = self.save_snapshot();
        if !self.buffer.address_resolves(address) {
            self.halted = true;
            return Ok(());
        }
        match self.buffer.set_mode(address) {
            Err(e) => {
                return Err(e);
            },
            Ok(()) => {},
        }
        self.append_lines(&block);
        self.snapshot = Some(snapshot);
        Ok(())
    }

    fn do_relocate(&mut self, address: &Address, dest: &Address, copy: bool) -> (r: Result<
        (),
        EdError,
    >)
        requires
            old(self)@.flow == CommandFlow::Command,
            old(self)@.pending is None,
        ensures
            (final(self)@, result_kind(r)) == relocate_step(old(self)@, address@, dest@, copy),
            session_ok(final(self)@),
    {
        proof {
            reveal(relocate_step);
        }
        let snapshot = self.save_snapshot();
        if !self.buffer.address_resolves(address) {
            self.halted = true;
            return Ok(());
        }
        match self.buffer.set_range(address) {
            Err(e) => {
                return Err(e);
            },
            Ok(()) => {},
        }
        let completes = if copy {
            self.buffer.transfer_returns(dest)
        } else {
            self.buffer.move_returns(dest)
        };
        if !completes {
            self.halted = true;
            return Ok(());
        }
        let r = if copy {
            self.buffer.transfer(dest)
        } else {
            self.buffer.move_to(dest)
        };
        match r {
            Err(e) => {
                return Err(e);
            },
            Ok(()) => {},
        }
        self.snapshot = Some(snapshot);
        Ok(())
    }

    fn do_join(&mut self, address: &Address) -> (r: Result<(), EdError>)
        requires
            old(self)@.flow == CommandFlow::Command,
            old(self)@.pending is None,
        ensures
            (final(self)@, result_kind(r)) == join_step(old(self)@, address@),
            session_ok(final(self)@),
    {
        proof {
            reveal(join_step);
        }
        let snapshot = self.save_snapshot();
        if !self.buffer.join_returns(address) {
            self.halted = true;
            return Ok(());
        }
        match self.buffer.join(address) {
            Err(e) => {
                return Err(e);
            },
            Ok(()) => {},
        }
        self.snapshot = Some(snapshot);
        Ok(())
    }

    fn do_file(&mut self, name: Option<String>) -> (r: Result<(), EdError>)
        requires
            old(self)@.flow == CommandFlow::Command,
            old(self)@.pending is None,
        ensures
            (final(self)@, result_kind(r)) == file_step(old(self)@, opt_str(name)),
            session_ok(final(self)@),
    {
        proof {
            reveal(file_step);
        }
        match name {
            Some(n) => {
                self.emit_line(n.as_str());
                self.current_file = Some(n);
                Ok(())
            },
            None => {
                let known = clone_name(&self.current_file);
                match known {
                    Some(n) => {
                        self.emit_line(n.as_str());
                        Ok(())
                    },
                    None => Err(EdError::InvalidFilename),
                }
            },
        }
    }

    fn do_write(&mut self, address: Address, name: Option<String>) -> (r: Result<(), EdError>)
        requires
            old(self)@.flow == CommandFlow::Command,
            old(self)@.pending is None,
        ensures
            (final(self)@, result_kind(r)) == write_step(old(self)@, address@, opt_str(name)),
            session_ok(final(self)@),
    {
        proof {
            reveal(write_step);
        }
        if self.current_file.is_none() {
            self.current_file = clone_name(&name);
        }
        let n = match name {
            Some(n) => n,
            None => match clone_name(&self.current_file) {
                Some(f) => f,
                None => {
                    return Err(EdError::InvalidFilename);
                },
            },
        };
        self.pending = Some(Pending::Create { name: n, address });
        Ok(())
    }

    fn do_edit(&mut self, name: Option<String>) -> (r: Result<(), EdError>)
        requires
            old(self)@.flow == CommandFlow::Command,
            old(self)@.pending is None,
        ensures
            (final(self)@, result_kind(r)) == edit_step(old(self)@, opt_str(name)),
            session_ok(final(self)@),
    {
        proof {
            reveal(edit_step);
        }
        if self.edit_confirm == u32::MAX {
            self.halted = true;
            return Ok(());
        }
        self.edit_confirm = self.edit_confirm + 1;
        if self.snapshot.is_none() || self.edit_confirm == 2 {
            let known = self.current_file.take();
            let n = match name {
                Some(n) => n,
                None => match known {
                    Some(f) => f,
                    None => {
                        return Err(EdError::InvalidFilename);
                    },
                },
            };
            self.pending = Some(Pending::EditRead { name: n });
            Ok(())
        } else {
            Err(EdError::EndOfInput)
        }
    }

    fn do_read(&mut self, address: Address, name: Option<String>) -> (r: Result<(), EdError>)
        requires
            old(self)@.flow == CommandFlow::Command,
            old(self)@.pending is None,
        ensures
            (final(self)@, result_kind(r)) == read_step(old(self)@, address@, opt_str(name)),
            session_ok(final(self)@),
    {
        proof {
            reveal(read_step);
        }
        if self.current_file.is_none() {
            self.current_file = clone_name(&name);
        }
        let n = match name {
            Some(n) => n,
            None => match clone_name(&self.current_file) {
                Some(f) => f,
                None => {
                    return Err(EdError::InvalidFilename);
                },
            },
        };
        let snapshot = self.save_snapshot();
        self.pending = Some(Pending::Read { name: n, address, snapshot });
        Ok(())
    }

    fn do_substitute(
        &mut self,
        address: &Address,
        re: Option<String>,
        sub: Vec<String>,
        flag: Option<String>,
        repeated: bool,
        suffix: Option<CommandKind>,
    ) -> (r: Result<(), EdError>)
        requires
            old(self)@.flow == CommandFlow::Command,
            old(self)@.pending is None,
        ensures
            (final(self)@, result_kind(r)) == subst_step(
                old(self)@,
                address@,
                opt_str(re),
                strs(sub),
                opt_str(flag),
                repeated,
                opt_kind(suffix),
            ),
            session_ok(final(self)@),
    {
        proof {
            reveal(subst_step);
        }
        let snapshot = self.save_snapshot();
        let plan = match plan_for(flag, self.buffer.last_flag(), repeated, suffix) {
            None => {
                return Err(EdError::InvalidAddress);
            },
            Some(p) => p,
        };
        match re {
            Some(r) => self.buffer.set_last_re(Some(r)),
            None => {},
        }
        let src = match self.buffer.last_re() {
            None => {
                return Err(EdError::RegexNotFound);
            },
            Some(r) => r,
        };
        let pat = match compile(src.as_str()) {
            Err(e) => {
                return Err(EdError::RegexError(e));
            },
            Ok(p) => p,
        };
        if !self.buffer.address_resolves(address) {
            self.halted = true;
            return Ok(());
        }
        match self.buffer.set_range(address) {
            Err(e) => {
                return Err(e);
            },
            Ok(()) => {},
        }
        let previous = self.buffer.take_last_sub();
        let (sub2, prev2) = if repeated {
            match previous {
                None => {
                    return Err(EdError::NoData);
                },
                Some(p) => (p, None),
            }
        } else {
            (sub, previous)
        };
        self.substitute_lines(snapshot, &pat, sub2, prev2, repeated, plan)
    }

    fn substitute_lines(
        &mut self,
        snapshot: Snapshot,
        pat: &Pattern,
        sub2: Vec<String>,
        prev2: Option<Vec<String>>,
        repeated: bool,
        plan: Plan,
    ) -> (r: Result<(), EdError>)
        requires
            old(self)@.flow == CommandFlow::Command,
            old(self)@.pending is None,
            old(self)@.buffer.subs is None,
        ensures
            (final(self)@, result_kind(r)) == subst_lines(
                old(self)@,
                snap_view(snapshot),
                pat@,
                strs(sub2),
                opt_lines(prev2),
                repeated,
                plan_view(plan),
            ),
            session_ok(final(self)@),
    {
        proof {
            reveal(subst_lines);
        }
        let use_prev = sub2.len() == 1 && is_single(&sub2[0], '%');
        if use_prev && !repeated && prev2.is_none() {
            self.buffer.set_last_sub(prev2);
            return Err(EdError::NoData);
        }
        let replacement: Vec<String> = if use_prev {
            match &prev2 {
                Some(p) => copy_strings(p),
                None => copy_strings(&sub2),
            }
        } else {
            copy_strings(&sub2)
        };
        let restored = if repeated {
            Some(copy_strings(&sub2))
        } else {
            prev2
        };
        let computed = match self.buffer.get_lines() {
            Err(e) => Err(e),
            Ok(view) => Ok(collect_changes(&view, pat, &replacement, plan.nth, plan.global)),
        };
        let (changes, success) = match computed {
            Err(e) => {
                self.buffer.set_last_sub(restored);
                return Err(e);
            },
            Ok(x) => x,
        };
        if !success {
            self.buffer.restore_snapshot(snapshot);
            self.buffer.set_last_sub(restored);
            return Err(EdError::RegexNotFound);
        }
        match self.apply_all(&changes) {
            Err(e) => {
                return Err(e);
            },
            Ok(()) => {},
        }
        self.substitute_finish(snapshot, sub2, repeated, plan)
    }

    /// Makes the changes in turn, up to the first that fails.
    fn apply_all(&mut self, changes: &Vec<(bool, usize, String)>) -> (r: Result<(), EdError>)
        requires
            old(self)@.buffer.cur <= old(self)@.buffer.text.len(),
        ensures
            final(self)@ == (ReplV {
                buffer: apply_changes(old(self)@.buffer, changes_view(*changes)).0,
                ..old(self)@
            }),
            result_kind(r) == apply_changes(old(self)@.buffer, changes_view(*changes)).1,
    {
        let ghost b3 = self.buffer@;
        let ghost mid = self@;
        let ghost cv = changes_view(*changes);
        let mut i: usize = 0;
        while i < changes.len()
            invariant
                i <= changes@.len(),
                cv == changes_view(*changes),
                b3 == old(self)@.buffer,
                mid == old(self)@,
                apply_changes(b3, cv.take(i as int)) == (self.buffer@, Ok::<(), ErrKind>(())),
                self.buffer@.cur <= self.buffer@.text.len(),
                self@ == (ReplV { buffer: self.buffer@, ..mid }),
            decreases changes@.len() - i,
        {
            let ch = &changes[i];
            assert(cv.take(i + 1).drop_last() =~= cv.take(i as int));
            assert(cv.take(i + 1).last() == cv[i as int]);
            assert(cv[i as int] == (ch.0, ch.1, ch.2@));
            if ch.0 {
                let ghost b = self.buffer@;
                match self.buffer.change_line_at(ch.1, ch.2.as_str()) {
                    Err(e) => {
                        proof {
                            assert(self.buffer@ == b);
                            assert(apply_one(b, cv[i as int]) == (b, Err::<(), ErrKind>(ErrKind::InvalidRange)));
                            assert(apply_changes(b3, cv.take(i + 1)) == (b, Err::<(), ErrKind>(ErrKind::InvalidRange)));
                            lemma_apply_stops(b3, cv, i + 1);
                        }
                        return Err(e);
                    },
                    Ok(()) => {},
                }
            } else {
                let ghost b = self.buffer@;
                self.buffer.append(ch.2.as_str());
                assert(b.text.insert(b.cur as int, ch.2@) =~= inserted(
                    b.text,
                    b.cur as int,
                    seq![ch.2@],
                ));
            }
            i = i + 1;
        }
        assert(cv.take(i as int) =~= cv);
        Ok(())
    }

    fn substitute_finish(&mut self, snapshot: Snapshot, sub2: Vec<String>, repeated: bool, plan: Plan) -> (r:
        Result<(), EdError>)
        requires
            old(self)@.flow == CommandFlow::Command,
            old(self)@.pending is None,
        ensures
            (final(self)@, result_kind(r)) == subst_finish(
                old(self)@,
                snap_view(snapshot),
                strs(sub2),
                repeated,
                plan_view(plan),
            ),
            session_ok(final(self)@),
    {
        proof {
            reveal(subst_finish);
        }
        let Plan { global, nth, update, remembered, suffix: plan_suffix } = plan;
        self.buffer.set_last_sub(Some(sub2));
        if update {
            self.buffer.set_last_flag(remembered);
        }
        let run = if repeated {
            match plan_suffix {
                Some(k) => {
                    let current = self.buffer.last_suffix();
                    if same_print(&k, &current) {
                        self.buffer.set_last_suffix(None);
                        false
                    } else {
                        self.buffer.set_last_suffix(Some(k));
                        true
                    }
                },
                None => self.buffer.has_last_suffix(),
            }
        } else {
            let run = plan_suffix.is_some();
            self.buffer.set_last_suffix(plan_suffix);
            run
        };
        if run {
            match self.buffer.last_suffix() {
                None => {},
                Some(k) => {
                    let escaped = match k {
                        CommandKind::List => true,
                        _ => false,
                    };
                    let numbered = match k {
                        CommandKind::NumberedList => true,
                        _ => false,
                    };
                    let absent = Address::Absent;
                    match self.buffer.set_range(&absent) {
                        Err(e) => {
                            return Err(e);
                        },
                        Ok(()) => {},
                    }
                    let text = match self.buffer.get_lines() {
                        Err(e) => {
                            return Err(e);
                        },
                        Ok(v) => {
                            let v = if escaped {
                                v.well_defined()
                            } else {
                                v
                            };
                            let v = if numbered {
                                v.numbered()
                            } else {
                                v
                            };
                            v.render()
                        },
                    };
                    self.emit(text.as_str());
                },
            }
        }
        self.postfix_command = None;
        self.snapshot = Some(snapshot);
        Ok(())
    }

    /// Runs one command.
    fn run_command(&mut self, c: Command) -> (r: Result<(), EdError>)
        requires
            old(self)@.flow == CommandFlow::Command,
            old(self)@.pending is None,
        ensures
            (final(self)@, result_kind(r)) == command_step(old(self)@, c@),
            session_ok(final(self)@),
    {
        let quit = match &c.kind {
            CommandKind::Quit => true,
            _ => false,
        };
        if !quit {
            self.exit_confirm = 0;
        }
        let Command { address, kind, suffix } = c;
        match kind {
            CommandKind::Quit => self.do_quit(&address),
            CommandKind::Append => self.do_input(&address, suffix, false),
            CommandKind::Insert => self.do_input(&address, suffix, true),
            CommandKind::Change => self.do_change(&address, suffix),
            CommandKind::Write(n) => self.do_write(address, n),
            CommandKind::Edit(n) => self.do_edit(n),
            CommandKind::List => self.do_list(&address, true, false),
            CommandKind::NumberedList => self.do_list(&address, false, true),
            CommandKind::PrintList => self.do_list(&address, false, false),
            CommandKind::Delete => self.do_delete(&address, suffix),
            CommandKind::InternalListLastAffectedLine => self.do_active(&address),
            CommandKind::Undo => self.do_undo(&address, suffix),
            CommandKind::Read(n) => self.do_read(address, n),
            CommandKind::Yank => self.do_yank(&address),
            CommandKind::Transfer(d) => self.do_relocate(&address, &d, true),
            CommandKind::Put => self.do_put(&address),
            CommandKind::Move(d) => self.do_relocate(&address, &d, false),
            CommandKind::Join => self.do_join(&address),
            CommandKind::NoOp => Ok(()),
            CommandKind::MultiLineCommand(_) => {
                self.halted = true;
                Ok(())
            },
            CommandKind::Substitution { re, sub, flag, repeated } => self.do_substitute(
                &address,
                re,
                sub,
                flag,
                repeated,
                suffix,
            ),
            CommandKind::File(n) => self.do_file(n),
        }
    }

    /// Runs the print command the last command left behind, if any.
    fn run_postfix(&mut self)
        requires
            old(self)@.flow == CommandFlow::Command,
            old(self)@.pending is None,
        ensures
            final(self)@ == postfix_spec(old(self)@),
            session_ok(final(self)@),
    {
        match self.postfix_command.take() {
            None => {},
            Some(kind) => {
                let r = self.run_command(Command::empty(kind));
                if self.halted || self.pending.is_some() {
                    return ;
                }
                if r.is_err() {
                    self.emit_error();
                }
            },
        }
    }

    /// What follows a command: `?` for an error, then its print suffix.
    fn finish(&mut self, r: Result<(), EdError>)
        requires
            session_ok(old(self)@),
        ensures
            final(self)@ == after_spec(old(self)@, result_kind(r)),
            session_ok(final(self)@),
    {
        if self.halted || self.pending.is_some() {
            return ;
        }
        if r.is_err() {
            self.emit_error();
        }
        if self.flow != CommandFlow::Input {
            self.run_postfix();
        }
    }

    /// The reply for the session's present state.
    fn reply(&self) -> (r: Reply)
        ensures
            answers(r, self@),
    {
        let output = string_from_chars(self.out.as_slice());
        let request = match &self.pending {
            None => None,
            Some(Pending::Create { name, .. }) => Some(FileRequest::Create(name.clone())),
            Some(Pending::WriteAll { contents }) => Some(FileRequest::Write(contents.clone())),
            Some(Pending::EditRead { name }) => Some(FileRequest::Read(name.clone())),
            Some(Pending::Read { name, .. }) => Some(FileRequest::Read(name.clone())),
        };
        Reply { output, request, finished: self.finished, halted: self.halted }
    }

    /// Handles one input line: a command, or a line of text while text is
    /// input.
    pub fn feed(&mut self, line: &str) -> (r: Reply)
        requires
            session_ok(old(self)@),
        ensures
            final(self)@ == feed_spec(old(self)@, line@),
            answers(r, final(self)@),
            session_ok(final(self)@),
    {
        self.out = Vec::new();
        assert(self@.out =~= Seq::<char>::empty());
        if self.finished || self.halted || self.pending.is_some() {
            return self.reply();
        }
        if self.flow == CommandFlow::Input {
            if line_ends_input(line) {
                self.flow = CommandFlow::Command;
                let _ = self.buffer.exit_mode();
                self.run_postfix();
            } else {
                let ghost b = self@.buffer;
                self.buffer.append(line);
                assert(b.text.insert(b.cur as int, line@) =~= inserted(b.text, b.cur as int, seq![line@]));
            }
            return self.reply();
        }
        let ghost s0 = self@;
        assert(s0 == (ReplV { out: Seq::empty(), ..old(self)@ }));
        match self.parser.parse_checked(line) {
            None => {
                self.halted = true;
                self.parser = Parser::new();
            },
            Some(Err(e)) => {
                let ghost s1 = self@;
                assert(s1 == (ReplV { parser: s1.parser, ..s0 }));
                self.finish(Err(e));
            },
            Some(Ok(c)) => {
                let ghost s1 = self@;
                assert(s1 == (ReplV { parser: s1.parser, ..s0 }));
                let r = self.run_command(c);
                self.finish(r);
            },
        }
        self.reply()
    }

    /// Ends the file work the session waits for, with the caller's outcome.
    fn complete(&mut self, p: Pending, f: FileReply) -> (r: Result<(), EdError>)
        requires
            old(self)@.flow == CommandFlow::Command,
            old(self)@.pending is None,
        ensures
            (final(self)@, result_kind(r)) == finish_step(old(self)@, pending_view(p), file_reply_view(f)),
            session_ok(final(self)@),
    {
        match p {
            Pending::Create { name, address } => self.complete_create(name, address, f),
            Pending::WriteAll { contents } => self.complete_write(contents, f),
            Pending::EditRead { name } => self.complete_edit(name, f),
            Pending::Read { name, address, snapshot } => self.complete_read(name, address, snapshot, f),
        }
    }

    /// The file a write goes to was created: the text to write is asked for.
    fn complete_create(&mut self, name: String, address: Address, f: FileReply) -> (r: Result<(), EdError>)
        requires
            old(self)@.flow == CommandFlow::Command,
            old(self)@.pending is None,
        ensures
            (final(self)@, result_kind(r)) == finish_step(
                old(self)@,
                PendingV::Create { name: name@, address: address@ },
                file_reply_view(f),
            ),
            session_ok(final(self)@),
    {
        match f {
            FileReply::Done => {
                if !(address.is_none() || self.buffer.address_resolves(&address)) {
                    self.halted = true;
                    return Ok(());
                }
                match self.buffer.get_lines_for_save(&address) {
                    Err(e) => Err(e),
                    Ok(t) => {
                        self.pending = Some(Pending::WriteAll { contents: t });
                        Ok(())
                    },
                }
            },
            FileReply::Failed(e) => Err(EdError::from(e)),
            FileReply::Contents(_) => Err(EdError::UnexpectedState),
        }
    }

    /// The text was written: the number of bytes is printed.
    fn complete_write(&mut self, contents: String, f: FileReply) -> (r: Result<(), EdError>)
        requires
            old(self)@.flow == CommandFlow::Command,
            old(self)@.pending is None,
        ensures
            (final(self)@, result_kind(r)) == finish_step(
                old(self)@,
                PendingV::WriteAll { contents: contents@ },
                file_reply_view(f),
            ),
            session_ok(final(self)@),
    {
        match f {
            FileReply::Done => {
                self.snapshot = None;
                let n = contents.as_str().as_bytes().len();
                self.emit_number(n);
                Ok(())
            },
            FileReply::Failed(e) => Err(EdError::from(e)),
            FileReply::Contents(_) => Err(EdError::UnexpectedState),
        }
    }

    /// The file `e` reads was read: the session starts afresh with its text.
    fn complete_edit(&mut self, name: String, f: FileReply) -> (r: Result<(), EdError>)
        requires
            old(self)@.flow == CommandFlow::Command,
            old(self)@.pending is None,
        ensures
            (final(self)@, result_kind(r)) == finish_step(
                old(self)@,
                PendingV::EditRead { name: name@ },
                file_reply_view(f),
            ),
            session_ok(final(self)@),
    {
        match f {
            FileReply::Contents(t) => {
                self.flow = CommandFlow::Command;
                self.buffer = Buffer::new();
                self.parser = Parser::new();
                self.postfix_command = None;
                self.snapshot = None;
                self.exit_confirm = 0;
                self.edit_confirm = 0;
                self.yank_buffer = None;
                self.finished = false;
                self.halted = false;
                self.current_file = Some(name);
                assert(self@.buffer == empty_buffer());
                let lines = text_lines(t.as_str());
                self.append_lines(&lines);
                let n = t.as_str().as_bytes().len();
                self.emit_number(n);
                Ok(())
            },
            FileReply::Failed(e) => Err(EdError::from(e)),
            FileReply::Done => Err(EdError::UnexpectedState),
        }
    }

    /// The file `r` reads was read: its lines go after the addressed line.
    fn complete_read(
        &mut self,
        name: String,
        address: Address,
        snapshot: Snapshot,
        f: FileReply,
    ) -> (r: Result<(), EdError>)
        requires
            old(self)@.flow == CommandFlow::Command,
            old(self)@.pending is None,
        ensures
            (final(self)@, result_kind(r)) == finish_step(
                old(self)@,
                PendingV::Read { name: name@, address: address@, snap: snap_view(snapshot) },
                file_reply_view(f),
            ),
            session_ok(final(self)@),
    {
        match f {
            FileReply::Contents(t) => {
                if !self.buffer.address_resolves(&address) {
                    self.halted = true;
                    return Ok(());
                }
                match self.buffer.set_mode(&address) {
                    Err(e) => {
                        return Err(e);
                    },
                    Ok(()) => {},
                }
                let lines = text_lines(t.as_str());
                self.append_lines(&lines);
                self.snapshot = Some(snapshot);
                let n = t.as_str().as_bytes().len();
                self.emit_number(n);
                Ok(())
            },
            FileReply::Failed(e) => Err(EdError::from(e)),
            FileReply::Done => Err(EdError::UnexpectedState),
        }
    }

    /// Hands the session the outcome of the file work it asked for.
    pub fn resume(&mut self, f: FileReply) -> (r: Reply)
        requires
            session_ok(old(self)@),
        ensures
            final(self)@ == resume_spec(old(self)@, file_reply_view(f)),
            answers(r, final(self)@),
            session_ok(final(self)@),
    {
        self.out = Vec::new();
        assert(self@.out =~= Seq::<char>::empty());
        let p = match self.pending.take() {
            None => {
                return self.reply();
            },
            Some(p) => p,
        };
        let r = self.complete(p, f);
        self.finish(r);
        self.reply()
    }
}

} // verus!
