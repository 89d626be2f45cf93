//! Commands, addresses and errors of the editor, and the parser that turns
//! an input line into a command.
use vstd::prelude::*;
use crate::grammar::{
    skip_ws, skip_ascii_ws, digits_end, newline_at_or_after, number_at, offset_from, delim_scan,
    line_at, address_at, filename_at, suffix_char, suffix_at, flag_at, re_scan, sub_scan,
    FullSubsV, full_subs_at, short_subs_at, command_at, continue_subs, continued, parse_line,
    lemma_skip_ws, lemma_skip_ascii_ws, lemma_digits_end, lemma_newline, lemma_number_at,
    lemma_delim_scan,
};
use crate::text::{
    digit_value, digits_value, decimal, is_whitespace, is_ascii_whitespace, is_control,
    is_ascii_digit, is_numeric, push_decimal, string_from_chars, chars_of,
};

verus! {

#[verifier::external_type_specification]
#[verifier::external_body]
pub struct ExIoError(std::io::Error);

/// Whether input lines are read as commands or as text.
#[derive(Debug, Clone, Copy, PartialEq, Eq, Structural)]
pub enum CommandFlow {
    Command,
    Input,
}

/// The address part of a command.
#[derive(Debug, Clone, PartialEq, Eq)]
pub enum Address {
    Absent,
    Single(Line),
    Range(Line, Line),
    RangeSemicolon(Line, Line),
}

/// One line address; the `isize` is an offset added to it.
#[derive(Debug, Clone, PartialEq, Eq)]
pub enum Line {
    Current(isize),
    First(isize),
    Last(isize),
    Absolute(usize, isize),
    Offset(isize),
    Regex(String, isize),
    RegexBackward(String, isize),
}

/// A substitution whose replacement continues on the following input lines.
#[derive(Debug)]
pub struct MLCSubstitution {
    pub re: Option<String>,
    pub sub: Vec<String>,
    pub flag: Option<String>,
    pub suffix: Option<Box<CommandKind>>,
    pub separator: char,
    pub is_done: bool,
}

#[derive(Debug)]
pub enum CommandKind {
    NoOp,
    Quit,
    Append,
    Insert,
    Change,
    Yank,
    Delete,
    Transfer(Address),
    MultiLineCommand(MLCSubstitution),
    Substitution { re: Option<String>, sub: Vec<String>, flag: Option<String>, repeated: bool },
    Put,
    Join,
    Move(Address),
    Write(Option<String>),
    Edit(Option<String>),
    Read(Option<String>),
    File(Option<String>),
    List,
    NumberedList,
    PrintList,
    Undo,
    InternalListLastAffectedLine,
}

#[derive(Debug)]
pub struct Command {
    pub address: Address,
    pub kind: CommandKind,
    pub suffix: Option<CommandKind>,
}

#[derive(Debug)]
pub enum EdError {
    UnknownCommand,
    NoData,
    SuffixUnsuported,
    InvalidRange,
    InvalidAddress,
    InvalidFilename,
    InvalidInput,
    RegexNotFound,
    RegexInvalid,
    EndOfInput,
    UnexpectedState,
    IoError(std::io::Error),
    RegexError(regex::Error),
}

/// Which error an `EdError` is, without its payload.
#[derive(PartialEq, Eq, Structural)]
pub enum ErrKind {
    UnknownCommand,
    NoData,
    SuffixUnsuported,
    InvalidRange,
    InvalidAddress,
    InvalidFilename,
    InvalidInput,
    RegexNotFound,
    RegexInvalid,
    EndOfInput,
    UnexpectedState,
    IoError,
    RegexError,
}

impl View for EdError {
    type V = ErrKind;

    open spec fn view(&self) -> ErrKind {
        match self {
            EdError::UnknownCommand => ErrKind::UnknownCommand,
            EdError::NoData => ErrKind::NoData,
            EdError::SuffixUnsuported => ErrKind::SuffixUnsuported,
            EdError::InvalidRange => ErrKind::InvalidRange,
            EdError::InvalidAddress => ErrKind::InvalidAddress,
            EdError::InvalidFilename => ErrKind::InvalidFilename,
            EdError::InvalidInput => ErrKind::InvalidInput,
            EdError::RegexNotFound => ErrKind::RegexNotFound,
            EdError::RegexInvalid => ErrKind::RegexInvalid,
            EdError::EndOfInput => ErrKind::EndOfInput,
            EdError::UnexpectedState => ErrKind::UnexpectedState,
            EdError::IoError(_) => ErrKind::IoError,
            EdError::RegexError(_) => ErrKind::RegexError,
        }
    }
}

impl EdError {
    /// The message the error is shown with. The messages of the wrapped
    /// I/O and regex errors come from those errors themselves.
    pub fn message(&self) -> (r: String)
        ensures
            self@ == ErrKind::UnknownCommand ==> r@ == "Unknown Command"@,
            self@ == ErrKind::SuffixUnsuported ==> r@ == "Suffix Unsuported"@,
            self@ == ErrKind::InvalidRange ==> r@ == "Invalid Range"@,
            self@ == ErrKind::InvalidFilename ==> r@ == "Invalid Filename"@,
            self@ == ErrKind::InvalidAddress ==> r@ == "Invalid Address"@,
            self@ == ErrKind::RegexNotFound ==> r@ == "Regex Not Found"@,
            self@ == ErrKind::RegexInvalid ==> r@ == "Regex Invalid"@,
            self@ == ErrKind::NoData ==> r@ == "No Data"@,
            self@ == ErrKind::EndOfInput ==> r@ == "End Of Input"@,
            self@ == ErrKind::InvalidInput ==> r@ == "Invalid Input"@,
            self@ == ErrKind::UnexpectedState ==> r@ == "Unexpected State"@,
    {
        match self {
            EdError::UnknownCommand => "Unknown Command".to_owned(),
            EdError::SuffixUnsuported => "Suffix Unsuported".to_owned(),
            EdError::InvalidRange => "Invalid Range".to_owned(),
            EdError::InvalidFilename => "Invalid Filename".to_owned(),
            EdError::IoError(error) => io_error_text(error),
            EdError::RegexError(error) => regex_error_text(error),
            EdError::InvalidAddress => "Invalid Address".to_owned(),
            EdError::RegexNotFound => "Regex Not Found".to_owned(),
            EdError::RegexInvalid => "Regex Invalid".to_owned(),
            EdError::NoData => "No Data".to_owned(),
            EdError::EndOfInput => "End Of Input".to_owned(),
            EdError::InvalidInput => "Invalid Input".to_owned(),
            EdError::UnexpectedState => "Unexpected State".to_owned(),
        }
    }
}

impl From<std::io::Error> for EdError {
    fn from(e: std::io::Error) -> (r: Self) {
        EdError::IoError(e)
    }
}

impl vstd::std_specs::convert::FromSpecImpl<std::io::Error> for EdError {
    open spec fn obeys_from_spec() -> bool {
        true
    }

    open spec fn from_spec(v: std::io::Error) -> Self {
        EdError::IoError(v)
    }
}

impl From<regex::Error> for EdError {
    fn from(e: regex::Error) -> (r: Self) {
        EdError::RegexError(e)
    }
}

impl vstd::std_specs::convert::FromSpecImpl<regex::Error> for EdError {
    open spec fn obeys_from_spec() -> bool {
        true
    }

    open spec fn from_spec(v: regex::Error) -> Self {
        EdError::RegexError(v)
    }
}

/// Calls `ToString::to_string` on an I/O error (its `Display` text);
/// nothing is claimed of the text.
#[verifier::external_body]
fn io_error_text(e: &std::io::Error) -> String {
    e.to_string()
}

/// Calls `ToString::to_string` on a regex error (its `Display` text);
/// nothing is claimed of the text.
#[verifier::external_body]
fn regex_error_text(e: &regex::Error) -> String {
    e.to_string()
}

/// What a `Line` stands for, with its texts as character sequences.
pub enum LineV {
    Current(isize),
    First(isize),
    Last(isize),
    Absolute(usize, isize),
    Offset(isize),
    Regex(Seq<char>, isize),
    RegexBackward(Seq<char>, isize),
}

pub enum AddressV {
    Absent,
    Single(LineV),
    Range(LineV, LineV),
    RangeSemicolon(LineV, LineV),
}

pub struct MlcV {
    pub re: Option<Seq<char>>,
    pub sub: Seq<Seq<char>>,
    pub flag: Option<Seq<char>>,
    pub suffix: Option<Box<KindV>>,
    pub separator: char,
    pub is_done: bool,
}

pub enum KindV {
    NoOp,
    Quit,
    Append,
    Insert,
    Change,
    Yank,
    Delete,
    Transfer(AddressV),
    MultiLineCommand(MlcV),
    Substitution {
        re: Option<Seq<char>>,
        sub: Seq<Seq<char>>,
        flag: Option<Seq<char>>,
        repeated: bool,
    },
    Put,
    Join,
    Move(AddressV),
    Write(Option<Seq<char>>),
    Edit(Option<Seq<char>>),
    Read(Option<Seq<char>>),
    File(Option<Seq<char>>),
    List,
    NumberedList,
    PrintList,
    Undo,
    InternalListLastAffectedLine,
}

pub struct CommandV {
    pub address: AddressV,
    pub kind: KindV,
    pub suffix: Option<KindV>,
}

pub open spec fn opt_str(o: Option<String>) -> Option<Seq<char>> {
    match o {
        Some(s) => Some(s@),
        None => None,
    }
}

pub open spec fn strs(v: Vec<String>) -> Seq<Seq<char>> {
    v@.map_values(|s: String| s@)
}

impl View for Line {
    type V = LineV;

    open spec fn view(&self) -> LineV {
        match self {
            Line::Current(o) => LineV::Current(*o),
            Line::First(o) => LineV::First(*o),
            Line::Last(o) => LineV::Last(*o),
            Line::Absolute(n, o) => LineV::Absolute(*n, *o),
            Line::Offset(o) => LineV::Offset(*o),
            Line::Regex(r, o) => LineV::Regex(r@, *o),
            Line::RegexBackward(r, o) => LineV::RegexBackward(r@, *o),
        }
    }
}

impl View for Address {
    type V = AddressV;

    open spec fn view(&self) -> AddressV {
        match self {
            Address::Absent => AddressV::Absent,
            Address::Single(a) => AddressV::Single(a@),
            Address::Range(a, b) => AddressV::Range(a@, b@),
            Address::RangeSemicolon(a, b) => AddressV::RangeSemicolon(a@, b@),
        }
    }
}

pub open spec fn kind_view(k: CommandKind) -> KindV
    decreases k,
{
    match k {
        CommandKind::NoOp => KindV::NoOp,
        CommandKind::Quit => KindV::Quit,
        CommandKind::Append => KindV::Append,
        CommandKind::Insert => KindV::Insert,
        CommandKind::Change => KindV::Change,
        CommandKind::Yank => KindV::Yank,
        CommandKind::Delete => KindV::Delete,
        CommandKind::Transfer(a) => KindV::Transfer(a@),
        CommandKind::MultiLineCommand(m) => KindV::MultiLineCommand(
            MlcV {
                re: opt_str(m.re),
                sub: strs(m.sub),
                flag: opt_str(m.flag),
                suffix: match m.suffix {
                    Some(b) => Some(Box::new(kind_view(*b))),
                    None => None,
                },
                separator: m.separator,
                is_done: m.is_done,
            },
        ),
        CommandKind::Substitution { re, sub, flag, repeated } => KindV::Substitution {
            re: opt_str(re),
            sub: strs(sub),
            flag: opt_str(flag),
            repeated,
        },
        CommandKind::Put => KindV::Put,
        CommandKind::Join => KindV::Join,
        CommandKind::Move(a) => KindV::Move(a@),
        CommandKind::Write(n) => KindV::Write(opt_str(n)),
        CommandKind::Edit(n) => KindV::Edit(opt_str(n)),
        CommandKind::Read(n) => KindV::Read(opt_str(n)),
        CommandKind::File(n) => KindV::File(opt_str(n)),
        CommandKind::List => KindV::List,
        CommandKind::NumberedList => KindV::NumberedList,
        CommandKind::PrintList => KindV::PrintList,
        CommandKind::Undo => KindV::Undo,
        CommandKind::InternalListLastAffectedLine => KindV::InternalListLastAffectedLine,
    }
}

impl View for CommandKind {
    type V = KindV;

    open spec fn view(&self) -> KindV {
        kind_view(*self)
    }
}

pub open spec fn opt_kind(o: Option<CommandKind>) -> Option<KindV> {
    match o {
        Some(k) => Some(k@),
        None => None,
    }
}

impl View for Command {
    type V = CommandV;

    open spec fn view(&self) -> CommandV {
        CommandV { address: self.address@, kind: self.kind@, suffix: opt_kind(self.suffix) }
    }
}

impl Line {
    /// A copy of the line address.
    pub fn duplicate(&self) -> (r: Line)
        ensures
            r@ == self@,
    {
        match self {
            Line::Current(o) => Line::Current(*o),
            Line::First(o) => Line::First(*o),
            Line::Last(o) => Line::Last(*o),
            Line::Absolute(n, o) => Line::Absolute(*n, *o),
            Line::Offset(o) => Line::Offset(*o),
            Line::Regex(r, o) => Line::Regex(r.clone(), *o),
            Line::RegexBackward(r, o) => Line::RegexBackward(r.clone(), *o),
        }
    }
}

impl Address {
    /// A copy of the address.
    pub fn duplicate(&self) -> (r: Address)
        ensures
            r@ == self@,
    {
        match self {
            Address::Absent => Address::Absent,
            Address::Single(a) => Address::Single(a.duplicate()),
            Address::Range(a, b) => Address::Range(a.duplicate(), b.duplicate()),
            Address::RangeSemicolon(a, b) => Address::RangeSemicolon(a.duplicate(), b.duplicate()),
        }
    }

    pub fn is_none(&self) -> (r: bool)
        ensures
            r == (self@ == AddressV::Absent),
    {
        match self {
            Address::Absent => true,
            _ => false,
        }
    }
}

/// A cursor over the characters of one input line.
struct ParserInternal {
    chars: Vec<char>,
    pos: usize,
}

impl ParserInternal {
    spec fn s(&self) -> Seq<char> {
        self.chars@
    }

    spec fn wf(&self) -> bool {
        self.pos <= self.chars@.len()
    }

    fn new(input: &str) -> (r: Self)
        ensures
            r.s() == input@,
            r.pos == 0,
            r.wf(),
    {
        ParserInternal { chars: chars_of(input), pos: 0 }
    }

    fn peek(&self) -> (r: Option<char>)
        requires
            self.wf(),
        ensures
            r == (if self.pos < self.s().len() {
                Some(self.s()[self.pos as int])
            } else {
                None
            }),
    {
        if self.pos < self.chars.len() {
            Some(self.chars[self.pos])
        } else {
            None
        }
    }

    fn consume(&mut self) -> (r: Option<char>)
        requires
            old(self).wf(),
        ensures
            final(self).wf(),
            final(self).s() == old(self).s(),
            old(self).pos < old(self).s().len() ==> r == Some(old(self).s()[old(self).pos as int])
                && final(self).pos == old(self).pos + 1,
            old(self).pos >= old(self).s().len() ==> r is None && final(self).pos == old(self).pos,
    {
        if self.pos < self.chars.len() {
            let c = self.chars[self.pos];
            self.pos = self.pos + 1;
            Some(c)
        } else {
            None
        }
    }

    /// Reads up to and past the next newline; the text before it.
    fn parse_rest(&mut self) -> (r: String)
        requires
            old(self).wf(),
        ensures
            final(self).wf(),
            final(self).s() == old(self).s(),
            r@ == old(self).s().subrange(
                old(self).pos as int,
                newline_at_or_after(old(self).s(), old(self).pos as int),
            ),
            final(self).pos == (if newline_at_or_after(old(self).s(), old(self).pos as int) < old(
                self,
            ).s().len() {
                newline_at_or_after(old(self).s(), old(self).pos as int) + 1
            } else {
                newline_at_or_after(old(self).s(), old(self).pos as int)
            }),
    {
        let ghost s = self.s();
        let ghost p0 = self.pos as int;
        let mut r: Vec<char> = Vec::new();
        while self.pos < self.chars.len() && self.chars[self.pos] != '\n'
            invariant
                self.wf(),
                self.s() == s,
                0 <= p0 <= self.pos,
                newline_at_or_after(s, self.pos as int) == newline_at_or_after(s, p0),
                r@ == s.subrange(p0, self.pos as int),
            decreases self.s().len() - self.pos,
        {
            r.push(self.chars[self.pos]);
            self.pos = self.pos + 1;
            assert(r@ =~= s.subrange(p0, self.pos as int));
        }
        if self.pos < self.chars.len() {
            self.pos = self.pos + 1;
        }
        string_from_chars(r.as_slice())
    }

    fn skip_whitespace(&mut self)
        requires
            old(self).wf(),
        ensures
            final(self).wf(),
            final(self).s() == old(self).s(),
            final(self).pos == skip_ws(old(self).s(), old(self).pos as int),
    {
        let ghost p0 = self.pos as int;
        while self.pos < self.chars.len() && is_whitespace(self.chars[self.pos])
            invariant
                self.wf(),
                self.s() == old(self).s(),
                skip_ws(self.s(), self.pos as int) == skip_ws(self.s(), p0),
            decreases self.s().len() - self.pos,
        {
            self.pos = self.pos + 1;
        }
    }

    fn parse_number(&mut self) -> (r: Option<usize>)
        requires
            old(self).wf(),
        ensures
            final(self).wf(),
            final(self).s() == old(self).s(),
            (r, final(self).pos as int) == number_at(old(self).s(), old(self).pos as int),
    {
        let ghost s = self.s();
        self.skip_whitespace();
        let q = self.pos;
        let mut acc: usize = 0;
        let mut overflow = false;
        proof {
            lemma_digits_end(s, q as int);
            assert(s.subrange(q as int, q as int) =~= Seq::<char>::empty());
        }
        while self.pos < self.chars.len() && is_ascii_digit(self.chars[self.pos])
            invariant
                self.wf(),
                self.s() == s,
                q <= self.pos,
                digits_end(s, self.pos as int) == digits_end(s, q as int),
                overflow == (digits_value(s.subrange(q as int, self.pos as int)) > usize::MAX),
                !overflow ==> acc == digits_value(s.subrange(q as int, self.pos as int)),
            decreases self.s().len() - self.pos,
        {
            let c = self.chars[self.pos];
            let ghost before = s.subrange(q as int, self.pos as int);
            let d = (c as u32 - 48) as usize;
            assert(s.subrange(q as int, self.pos + 1).drop_last() =~= before);
            assert(digits_value(s.subrange(q as int, self.pos + 1)) == digits_value(before) * 10
                + digit_value(c));
            if !overflow {
                if acc > (usize::MAX - d) / 10 {
                    overflow = true;
                } else {
                    acc = acc * 10 + d;
                }
            }
            self.pos = self.pos + 1;
        }
        if self.pos > q && !overflow {
            Some(acc)
        } else {
            None
        }
    }
}

impl ParserInternal {
    /// The offset terms from here on; `None` where their arithmetic overflows
    /// or the scan would not end.
    fn parse_offset(&mut self) -> (r: Option<isize>)
        requires
            old(self).wf(),
        ensures
            final(self).wf(),
            final(self).s() == old(self).s(),
            match offset_from(old(self).s(), old(self).pos as int, 0) {
                Some((v, e)) => r == Some(v) && final(self).pos == e,
                None => r is None,
            },
    {
        let ghost s = self.s();
        let ghost p0 = self.pos as int;
        let mut result: isize = 0;
        loop
            invariant
                self.wf(),
                self.s() == s,
                s == old(self).s(),
                p0 == old(self).pos,
                offset_from(s, self.pos as int, result as int) == offset_from(s, p0, 0),
            decreases self.s().len() - self.pos,
        {
            let ghost p = self.pos as int;
            proof {
                lemma_skip_ws(s, p);
            }
            self.skip_whitespace();
            match self.peek() {
                Some(c) => {
                    if c == '+' || c == '-' {
                        self.consume();
                        proof {
                            lemma_number_at(s, self.pos as int);
                        }
                        let n = self.parse_number();
                        let term: isize = match n {
                            Some(v) => v as isize,
                            None => 1,
                        };
                        let next = if c == '+' {
                            result.checked_add(term)
                        } else {
                            result.checked_sub(term)
                        };
                        match next {
                            Some(v) => {
                                result = v;
                            },
                            None => {
                                return None;
                            },
                        }
                    } else if is_numeric(c) {
                        if !is_ascii_digit(c) {
                            return None;
                        }
                        proof {
                            lemma_number_at(s, self.pos as int);
                            assert(skip_ws(s, self.pos as int) == self.pos);
                            lemma_digits_end(s, self.pos + 1);
                        }
                        let n = self.parse_number();
                        let term: isize = match n {
                            Some(v) => v as isize,
                            None => 0,
                        };
                        match result.checked_add(term) {
                            Some(v) => {
                                result = v;
                            },
                            None => {
                                return None;
                            },
                        }
                    } else {
                        return Some(result);
                    }
                },
                None => {
                    return Some(result);
                },
            }
        }
    }

    /// The text of a regular expression address up to delimiter `d`.
    fn scan_delimited(&mut self, d: char) -> (r: String)
        requires
            old(self).wf(),
            d != '\\',
        ensures
            final(self).wf(),
            final(self).s() == old(self).s(),
            (r@, final(self).pos as int) == delim_scan(old(self).s(), old(self).pos as int, d),
    {
        let ghost s = self.s();
        let ghost p0 = self.pos as int;
        let mut out: Vec<char> = Vec::new();
        while self.pos < self.chars.len() && self.chars[self.pos] != d
            invariant
                self.wf(),
                self.s() == s,
                0 <= p0,
                out@ + delim_scan(s, self.pos as int, d).0 == delim_scan(s, p0, d).0,
                delim_scan(s, self.pos as int, d).1 == delim_scan(s, p0, d).1,
            decreases self.s().len() - self.pos,
        {
            let c = self.chars[self.pos];
            let ghost p = self.pos as int;
            if c == '\\' {
                self.pos = self.pos + 1;
                if self.pos < self.chars.len() && self.chars[self.pos] == d {
                    out.push(d);
                    self.pos = self.pos + 1;
                    assert(seq![d] + delim_scan(s, p + 2, d).0 == delim_scan(s, p, d).0);
                    assert(out@ + delim_scan(s, self.pos as int, d).0 == delim_scan(s, p0, d).0);
                } else {
                    out.push('\\');
                    assert(seq!['\\'] + delim_scan(s, p + 1, d).0 == delim_scan(s, p, d).0);
                    assert(out@ + delim_scan(s, self.pos as int, d).0 == delim_scan(s, p0, d).0);
                }
            } else {
                out.push(c);
                self.pos = self.pos + 1;
                assert(seq![c] + delim_scan(s, p + 1, d).0 == delim_scan(s, p, d).0);
                assert(out@ + delim_scan(s, self.pos as int, d).0 == delim_scan(s, p0, d).0);
            }
        }
        assert(out@ =~= delim_scan(s, p0, d).0);
        string_from_chars(out.as_slice())
    }
}

pub open spec fn opt_line(o: Option<Line>) -> Option<LineV> {
    match o {
        Some(l) => Some(l@),
        None => None,
    }
}

impl ParserInternal {
    /// One line address, if there is one; `None` where reading it overflows
    /// or does not end.
    fn parse_line(&mut self) -> (r: Option<Option<Line>>)
        requires
            old(self).wf(),
        ensures
            final(self).wf(),
            final(self).s() == old(self).s(),
            match line_at(old(self).s(), old(self).pos as int) {
                Some((l, e)) => r is Some && opt_line(r->0) == l && final(self).pos == e,
                None => r is None,
            },
    {
        let ghost s = self.s();
        proof {
            lemma_skip_ws(s, self.pos as int);
        }
        self.skip_whitespace();
        let q = self.pos;
        match self.peek() {
            Some(c) => {
                if c == '.' || c == '$' {
                    self.consume();
                    match self.parse_offset() {
                        Some(o) => if c == '.' {
                            Some(Some(Line::Current(o)))
                        } else {
                            Some(Some(Line::Last(o)))
                        },
                        None => None,
                    }
                } else if c == '+' || c == '-' {
                    match self.parse_offset() {
                        Some(o) => Some(Some(Line::Offset(o))),
                        None => None,
                    }
                } else if is_ascii_digit(c) {
                    match self.parse_number() {
                        Some(v) => match self.parse_offset() {
                            Some(o) => Some(Some(Line::Absolute(v, o))),
                            None => None,
                        },
                        None => None,
                    }
                } else if c == '/' || c == '?' {
                    self.consume();
                    proof {
                        lemma_delim_scan(s, q + 1, c);
                    }
                    let body = self.scan_delimited(c);
                    let offset = if self.pos < self.chars.len() {
                        self.consume();
                        match self.parse_offset() {
                            Some(o) => o,
                            None => {
                                return None;
                            },
                        }
                    } else {
                        0
                    };
                    if c == '/' {
                        Some(Some(Line::Regex(body, offset)))
                    } else {
                        Some(Some(Line::RegexBackward(body, offset)))
                    }
                } else {
                    Some(None)
                }
            },
            None => Some(None),
        }
    }

    /// The address at the start of a command line.
    fn parse_address(&mut self) -> (r: Option<Address>)
        requires
            old(self).wf(),
        ensures
            final(self).wf(),
            final(self).s() == old(self).s(),
            match address_at(old(self).s(), old(self).pos as int) {
                Some((a, e)) => r is Some && r->0@ == a && final(self).pos == e,
                None => r is None,
            },
    {
        let ghost s = self.s();
        proof {
            lemma_skip_ws(s, self.pos as int);
        }
        self.skip_whitespace();
        if self.peek() == Some('%') {
            self.consume();
            return match self.parse_offset() {
                Some(o) => Some(Address::Range(Line::First(o), Line::Last(o))),
                None => None,
            };
        }
        let first = match self.parse_line() {
            Some(f) => f,
            None => {
                return None;
            },
        };
        let sep = self.peek();
        if sep == Some(',') || sep == Some(';') {
            let comma = sep == Some(',');
            self.consume();
            let second = match self.parse_line() {
                Some(l) => l,
                None => {
                    return None;
                },
            };
            let (a, b) = match (first, second) {
                (Some(a), Some(b)) => (a, b),
                (Some(a), None) => {
                    let b = a.duplicate();
                    (a, b)
                },
                (None, Some(b)) => (
                    if comma {
                        Line::First(0)
                    } else {
                        Line::Current(0)
                    },
                    b,
                ),
                (None, None) => (
                    if comma {
                        Line::First(0)
                    } else {
                        Line::Current(0)
                    },
                    Line::Last(0),
                ),
            };
            if comma {
                Some(Address::Range(a, b))
            } else {
                Some(Address::RangeSemicolon(a, b))
            }
        } else {
            match first {
                Some(a) => Some(Address::Single(a)),
                None => Some(Address::Absent),
            }
        }
    }

    /// A file name set off by a blank or a control character.
    fn parse_filename(&mut self) -> (r: Result<Option<String>, EdError>)
        requires
            old(self).wf(),
        ensures
            final(self).wf(),
            final(self).s() == old(self).s(),
            match filename_at(old(self).s(), old(self).pos as int) {
                Ok((n, e)) => r is Ok && opt_str(r->Ok_0) == n && final(self).pos == e,
                Err(k) => r is Err && r->Err_0@ == k,
            },
    {
        let ghost s = self.s();
        match self.peek() {
            Some(c) => {
                if is_whitespace(c) || is_control(c) {
                    proof {
                        lemma_skip_ws(s, self.pos as int);
                        lemma_newline(s, skip_ws(s, self.pos as int));
                    }
                    self.skip_whitespace();
                    let name = self.parse_rest();
                    if name.as_str().is_empty() {
                        Ok(None)
                    } else {
                        Ok(Some(name))
                    }
                } else {
                    Err(EdError::SuffixUnsuported)
                }
            },
            None => Err(EdError::SuffixUnsuported),
        }
    }

    fn parse_print_suffix_char(c: char) -> (r: Option<CommandKind>)
        ensures
            opt_kind(r) == suffix_char(c),
    {
        match c {
            'l' => Some(CommandKind::List),
            'n' => Some(CommandKind::NumberedList),
            'p' => Some(CommandKind::PrintList),
            _ => None,
        }
    }

    fn parse_suffix(&mut self) -> (r: Result<CommandKind, EdError>)
        requires
            old(self).wf(),
        ensures
            final(self).wf(),
            final(self).s() == old(self).s(),
            match suffix_at(old(self).s(), old(self).pos as int) {
                Ok((k, e)) => r is Ok && r->Ok_0@ == k && final(self).pos == e,
                Err(k) => r is Err && r->Err_0@ == k,
            },
    {
        match self.consume() {
            Some(c) => match Self::parse_print_suffix_char(c) {
                Some(k) => Ok(k),
                None => Err(EdError::UnknownCommand),
            },
            None => Err(EdError::EndOfInput),
        }
    }
}

/// What follows `s` when it is a full substitution.
enum FullSubs {
    Continued(MLCSubstitution),
    Complete(Option<String>, String, Option<String>),
}

impl MLCSubstitution {
    fn new(re: Option<String>, sub: String, separator: char) -> (r: Self)
        ensures
            kind_view(CommandKind::MultiLineCommand(r)) == KindV::MultiLineCommand(
                MlcV {
                    re: opt_str(re),
                    sub: seq![sub@],
                    flag: None,
                    suffix: None,
                    separator,
                    is_done: false,
                },
            ),
    {
        let mut subs: Vec<String> = Vec::new();
        subs.push(sub);
        assert(strs(subs) =~= seq![sub@]);
        MLCSubstitution { re, sub: subs, flag: None, suffix: None, separator, is_done: false }
    }
}

impl ParserInternal {
    /// The flag after a replacement (see `flag_at`).
    fn parse_flag(&mut self, sep: char) -> (r: Option<String>)
        requires
            old(self).wf(),
        ensures
            final(self).wf(),
            final(self).s() == old(self).s(),
            (opt_str(r), final(self).pos as int) == flag_at(old(self).s(), old(self).pos as int, sep),
    {
        if self.peek() == Some(sep) {
            self.consume();
            match self.peek() {
                Some(c) => {
                    if is_numeric(c) {
                        match self.parse_number() {
                            Some(n) => {
                                let mut digits: Vec<char> = Vec::new();
                                push_decimal(n as u128, &mut digits);
                                assert(digits@ =~= decimal(n as nat));
                                Some(string_from_chars(digits.as_slice()))
                            },
                            None => None,
                        }
                    } else if c == 'g' {
                        self.consume();
                        let g = "g".to_owned();
                        proof {
                            reveal_strlit("g");
                        }
                        assert(g@ =~= seq!['g']);
                        Some(g)
                    } else {
                        let de = "de".to_owned();
                        proof {
                            reveal_strlit("de");
                        }
                        assert(de@ =~= seq!['d', 'e']);
                        Some(de)
                    }
                },
                None => None,
            }
        } else {
            None
        }
    }

    /// The regular expression of a full substitution (see `re_scan`).
    fn scan_subs_regex(&mut self, sep: char) -> (r: String)
        requires
            old(self).wf(),
        ensures
            final(self).wf(),
            final(self).s() == old(self).s(),
            (r@, final(self).pos as int) == re_scan(old(self).s(), old(self).pos as int, sep),
    {
        let ghost s = self.s();
        let ghost p0 = self.pos as int;
        let n = self.chars.len();
        let mut out: Vec<char> = Vec::new();
        loop
            invariant
                self.wf(),
                self.s() == s,
                s == old(self).s(),
                0 <= p0,
                n == s.len(),
                out@ + re_scan(s, self.pos as int, sep).0 == re_scan(s, p0, sep).0,
                re_scan(s, self.pos as int, sep).1 == re_scan(s, p0, sep).1,
                p0 == old(self).pos,
            ensures
                self.wf(),
                self.s() == s,
                out@ == re_scan(s, p0, sep).0,
                self.pos == re_scan(s, p0, sep).1,
            decreases self.s().len() - self.pos,
        {
            let ghost p = self.pos as int;
            if self.pos >= n {
                assert(out@ =~= re_scan(s, p0, sep).0);
                break;
            }
            let c = self.chars[self.pos];
            if c == '\\' {
                if self.pos + 1 < n {
                    let next = self.chars[self.pos + 1];
                    if next == sep {
                        out.push(sep);
                    } else {
                        out.push('\\');
                    }
                    self.pos = self.pos + 2;
                    assert(out@ + re_scan(s, self.pos as int, sep).0 == re_scan(s, p0, sep).0);
                } else {
                    out.push('\\');
                    self.pos = self.pos + 1;
                    assert(out@ + re_scan(s, self.pos as int, sep).0 == re_scan(s, p0, sep).0);
                }
            } else if c == sep || (c == '\n' && self.pos + 1 == n) {
                assert(out@ =~= re_scan(s, p0, sep).0);
                break;
            } else {
                out.push(c);
                self.pos = self.pos + 1;
                assert(seq![c] + re_scan(s, p + 1, sep).0 == re_scan(s, p, sep).0);
                assert(out@ + re_scan(s, self.pos as int, sep).0 == re_scan(s, p0, sep).0);
            }
        }
        string_from_chars(out.as_slice())
    }

    /// A replacement up to the separator (see `sub_scan`); `true` when it
    /// continues on the next input line.
    fn scan_subs_replacement(&mut self, sep: char) -> (r: (String, bool))
        requires
            old(self).wf(),
        ensures
            final(self).wf(),
            final(self).s() == old(self).s(),
            (r.0@, final(self).pos as int, r.1) == sub_scan(
                old(self).s(),
                old(self).pos as int,
                sep,
            ),
    {
        let ghost s = self.s();
        let ghost p0 = self.pos as int;
        let n = self.chars.len();
        let mut out: Vec<char> = Vec::new();
        loop
            invariant
                self.wf(),
                self.s() == s,
                s == old(self).s(),
                0 <= p0,
                n == s.len(),
                out@ + sub_scan(s, self.pos as int, sep).0 == sub_scan(s, p0, sep).0,
                sub_scan(s, self.pos as int, sep).1 == sub_scan(s, p0, sep).1,
                sub_scan(s, self.pos as int, sep).2 == sub_scan(s, p0, sep).2,
                p0 == old(self).pos,
            ensures
                self.wf(),
                self.s() == s,
                out@ == sub_scan(s, p0, sep).0,
                self.pos == sub_scan(s, p0, sep).1,
                !sub_scan(s, p0, sep).2,
            decreases self.s().len() - self.pos,
        {
            let ghost p = self.pos as int;
            if self.pos >= n {
                assert(out@ =~= sub_scan(s, p0, sep).0);
                break;
            }
            let c = self.chars[self.pos];
            if c == '\\' {
                if self.pos + 1 < n {
                    if self.chars[self.pos + 1] == '\n' {
                        out.push('\n');
                        self.pos = self.pos + 1;
                        assert(out@ =~= sub_scan(s, p0, sep).0);
                        return (string_from_chars(out.as_slice()), true);
                    }
                    out.push('\\');
                    self.pos = self.pos + 1;
                    assert(out@ + sub_scan(s, self.pos as int, sep).0 == sub_scan(s, p0, sep).0);
                } else {
                    out.push('\\');
                    self.pos = self.pos + 1;
                    assert(out@ =~= sub_scan(s, p0, sep).0);
                    return (string_from_chars(out.as_slice()), false);
                }
            } else if c == sep || is_control(c) {
                assert(out@ =~= sub_scan(s, p0, sep).0);
                break;
            } else {
                out.push(c);
                self.pos = self.pos + 1;
                assert(seq![c] + sub_scan(s, p + 1, sep).0 == sub_scan(s, p, sep).0);
                assert(out@ + sub_scan(s, self.pos as int, sep).0 == sub_scan(s, p0, sep).0);
            }
        }
        (string_from_chars(out.as_slice()), false)
    }
}

impl ParserInternal {
    /// `s/re/sub/flag` after the command letter (see `full_subs_at`).
    fn parse_full_subs(&mut self) -> (r: Result<FullSubs, EdError>)
        requires
            old(self).wf(),
        ensures
            final(self).wf(),
            final(self).s() == old(self).s(),
            match full_subs_at(old(self).s(), old(self).pos as int) {
                Ok(FullSubsV::Continued(m)) => r matches Ok(FullSubs::Continued(x))
                    && kind_view(CommandKind::MultiLineCommand(x)) == KindV::MultiLineCommand(m),
                Ok(FullSubsV::Complete(re, sub, flag, e)) => r matches Ok(
                    FullSubs::Complete(xr, xs, xf),
                ) && opt_str(xr) == re && xs@ == sub && opt_str(xf) == flag && final(self).pos
                    == e,
                Err(k) => r is Err && r->Err_0@ == k,
            },
    {
        let ghost s = self.s();
        let separator = match self.consume() {
            Some(c) => c,
            None => {
                return Err(EdError::EndOfInput);
            },
        };
        if is_whitespace(separator) {
            return Err(EdError::InvalidInput);
        }
        let re = self.scan_subs_regex(separator);
        let at_separator = self.peek() == Some(separator);
        if !at_separator {
            if !re.as_str().is_empty() && self.chars.len() - self.pos <= 1 {
                return Ok(FullSubs::Complete(Some(re), String::new(), None));
            }
            return Err(EdError::EndOfInput);
        }
        self.consume();
        let re = if re.as_str().is_empty() {
            None
        } else {
            Some(re)
        };
        let (sub, more) = self.scan_subs_replacement(separator);
        if more {
            return Ok(FullSubs::Continued(MLCSubstitution::new(re, sub, separator)));
        }
        let flag = self.parse_flag(separator);
        Ok(FullSubs::Complete(re, sub, flag))
    }

    /// The short form that repeats the last substitution (see `short_subs_at`).
    fn parse_short_subs(&mut self) -> (r: Result<(CommandKind, Option<CommandKind>), EdError>)
        requires
            old(self).wf(),
        ensures
            final(self).wf(),
            final(self).s() == old(self).s(),
            match short_subs_at(old(self).s(), old(self).pos as int) {
                Ok((k, x)) => r is Ok && r->Ok_0.0@ == k && opt_kind(r->Ok_0.1) == x,
                Err(k) => r is Err && r->Err_0@ == k,
            },
    {
        let ghost s = self.s();
        let ghost p0 = self.pos as int;
        let mut flag: Option<String> = None;
        let mut suffix: Option<CommandKind> = None;
        match self.peek() {
            None => {},
            Some(c) => {
                if c == '\n' {
                } else if is_ascii_whitespace(c) {
                    return Err(EdError::InvalidInput);
                } else if is_ascii_digit(c) {
                    let start = self.pos;
                    proof {
                        lemma_digits_end(s, p0);
                    }
                    let mut digits: Vec<char> = Vec::new();
                    while self.pos < self.chars.len() && is_ascii_digit(self.chars[self.pos])
                        invariant
                            self.wf(),
                            self.s() == s,
                            s == old(self).s(),
                            start == p0,
                            0 <= p0 <= self.pos,
                            digits_end(s, self.pos as int) == digits_end(s, p0),
                            digits@ == s.subrange(p0, self.pos as int),
                        decreases self.s().len() - self.pos,
                    {
                        digits.push(self.chars[self.pos]);
                        self.pos = self.pos + 1;
                        assert(digits@ =~= s.subrange(p0, self.pos as int));
                    }
                    flag = Some(string_from_chars(digits.as_slice()));
                } else if c == 'g' {
                    self.consume();
                    let g = "g".to_owned();
                    proof {
                        reveal_strlit("g");
                    }
                    assert(g@ =~= seq!['g']);
                    flag = Some(g);
                } else if c == 'l' || c == 'n' || c == 'p' {
                    self.consume();
                    suffix = Self::parse_print_suffix_char(c);
                } else {
                    return Err(EdError::UnknownCommand);
                }
            },
        }
        if suffix.is_none() {
            match self.peek() {
                Some(c) => {
                    if c == 'l' || c == 'n' || c == 'p' {
                        self.consume();
                        suffix = Self::parse_print_suffix_char(c);
                    }
                },
                None => {},
            }
        }
        let ghost q2 = self.pos as int;
        proof {
            lemma_skip_ascii_ws(s, q2);
        }
        while self.pos < self.chars.len() && is_ascii_whitespace(self.chars[self.pos])
            invariant
                self.wf(),
                self.s() == s,
                s == old(self).s(),
                skip_ascii_ws(s, self.pos as int) == skip_ascii_ws(s, q2),
            decreases self.s().len() - self.pos,
        {
            self.pos = self.pos + 1;
        }
        if self.pos < self.chars.len() {
            return Err(EdError::UnknownCommand);
        }
        let no_subs: Vec<String> = Vec::new();
        assert(strs(no_subs) =~= Seq::<Seq<char>>::empty());
        Ok((CommandKind::Substitution { re: None, sub: no_subs, flag, repeated: true }, suffix))
    }
}

impl ParserInternal {
    /// The command part of a line (see `command_at`); `None` where reading
    /// it overflows or does not end.
    fn parse_command(&mut self) -> (r: Option<Result<(CommandKind, Option<CommandKind>), EdError>>)
        requires
            old(self).wf(),
        ensures
            final(self).wf(),
            match command_at(old(self).s(), old(self).pos as int) {
                None => r is None,
                Some(Ok((k, x))) => r matches Some(Ok((rk, rx))) && rk@ == k && opt_kind(rx) == x,
                Some(Err(e)) => r matches Some(Err(re)) && re@ == e,
            },
    {
        let ghost s = self.s();
        proof {
            lemma_skip_ws(s, self.pos as int);
        }
        self.skip_whitespace();
        let cmd = match self.consume() {
            Some(c) => c,
            None => '\n',
        };
        let candidate = if cmd == 's' {
            let saved = self.pos;
            match self.parse_full_subs() {
                Ok(FullSubs::Continued(m)) => {
                    return Some(Ok((CommandKind::MultiLineCommand(m), None)));
                },
                Ok(FullSubs::Complete(re, sub, flag)) => {
                    let mut subs: Vec<String> = Vec::new();
                    subs.push(sub);
                    assert(strs(subs) =~= seq![subs@[0]@]);
                    CommandKind::Substitution { re, sub: subs, flag, repeated: false }
                },
                Err(_) => {
                    self.pos = saved;
                    let r = self.parse_short_subs();
                    self.pos = self.chars.len();
                    return Some(r);
                },
            }
        } else if cmd == 'm' || cmd == 't' {
            match self.parse_address() {
                Some(a) => if cmd == 'm' {
                    CommandKind::Move(a)
                } else {
                    CommandKind::Transfer(a)
                },
                None => {
                    return None;
                },
            }
        } else if cmd == 'w' || cmd == 'e' || cmd == 'r' || cmd == 'f' {
            match self.parse_filename() {
                Ok(n) => if cmd == 'w' {
                    CommandKind::Write(n)
                } else if cmd == 'e' {
                    CommandKind::Edit(n)
                } else if cmd == 'r' {
                    CommandKind::Read(n)
                } else {
                    CommandKind::File(n)
                },
                Err(e) => {
                    return Some(Err(e));
                },
            }
        } else if cmd == 'q' {
            CommandKind::Quit
        } else if cmd == 'a' {
            CommandKind::Append
        } else if cmd == 'c' {
            CommandKind::Change
        } else if cmd == 'i' {
            CommandKind::Insert
        } else if cmd == 'j' {
            CommandKind::Join
        } else if cmd == 'y' {
            CommandKind::Yank
        } else if cmd == 'x' {
            CommandKind::Put
        } else if cmd == 'l' {
            CommandKind::List
        } else if cmd == 'n' {
            CommandKind::NumberedList
        } else if cmd == 'p' {
            CommandKind::PrintList
        } else if cmd == 'd' {
            CommandKind::Delete
        } else if cmd == 'u' {
            CommandKind::Undo
        } else if is_ascii_whitespace(cmd) {
            CommandKind::InternalListLastAffectedLine
        } else {
            return Some(Err(EdError::UnknownCommand));
        };
        match self.peek() {
            Some(v) => {
                if !is_ascii_whitespace(v) {
                    match self.parse_suffix() {
                        Ok(x) => Some(Ok((candidate, Some(x)))),
                        Err(e) => Some(Err(e)),
                    }
                } else {
                    Some(Ok((candidate, None)))
                }
            },
            None => Some(Ok((candidate, None))),
        }
    }
}

pub open spec fn mlc_view(m: MLCSubstitution) -> MlcV {
    kind_view(CommandKind::MultiLineCommand(m))->MultiLineCommand_0
}

impl MLCSubstitution {
    /// Takes the next line of a substitution whose replacement goes on.
    pub fn handle_line(&mut self, line: &str) -> (r: Result<(), EdError>)
        ensures
            match continue_subs(mlc_view(*old(self)), line@) {
                Ok(m) => r is Ok && mlc_view(*final(self)) == m,
                Err(k) => r is Err && r->Err_0@ == k && mlc_view(*final(self)) == continued(
                    mlc_view(*old(self)),
                    line@,
                ).0,
            },
    {
        let mut parser = ParserInternal::new(line);
        let (sub, more) = parser.scan_subs_replacement('/');
        self.is_done = !more;
        let ghost before = strs(self.sub);
        self.sub.push(sub);
        assert(strs(self.sub) =~= before.push(sub@));
        self.flag = parser.parse_flag(self.separator);
        match parser.peek() {
            Some(v) => {
                if !is_ascii_whitespace(v) {
                    match parser.parse_suffix() {
                        Ok(k) => {
                            self.suffix = Some(Box::new(k));
                        },
                        Err(e) => {
                            return Err(e);
                        },
                    }
                }
            },
            None => {},
        }
        Ok(())
    }

    pub fn is_done(&self) -> (r: bool)
        ensures
            r == self.is_done,
    {
        self.is_done
    }

    /// The substitution the lines add up to, and its suffix.
    pub fn finish(self) -> (r: (CommandKind, Option<CommandKind>))
        ensures
            r.0@ == (KindV::Substitution {
                re: mlc_view(self).re,
                sub: mlc_view(self).sub,
                flag: mlc_view(self).flag,
                repeated: false,
            }),
            opt_kind(r.1) == (match mlc_view(self).suffix {
                Some(b) => Some(*b),
                None => None,
            }),
    {
        let suffix = match self.suffix {
            Some(b) => Some(*b),
            None => None,
        };
        (
            CommandKind::Substitution { re: self.re, sub: self.sub, flag: self.flag, repeated: false },
            suffix,
        )
    }
}

impl Command {
    fn new(address: Address, kind: CommandKind, suffix: Option<CommandKind>) -> (r: Self)
        ensures
            r.address == address,
            r.kind == kind,
            r.suffix == suffix,
    {
        Command { address, kind, suffix }
    }

    /// A command of the given kind with no address and no suffix.
    pub fn empty(kind: CommandKind) -> (r: Self)
        ensures
            r.address@ == AddressV::Absent,
            r.kind == kind,
            r.suffix is None,
    {
        Command { address: Address::Absent, kind, suffix: None }
    }
}

/// Turns input lines into commands; it remembers a substitution whose
/// replacement continues on the next line.
pub struct Parser {
    mlc: Option<(MLCSubstitution, Address)>,
}

impl View for Parser {
    type V = Option<(MlcV, AddressV)>;

    closed spec fn view(&self) -> Option<(MlcV, AddressV)> {
        match self.mlc {
            Some((m, a)) => Some((mlc_view(m), a@)),
            None => None,
        }
    }
}

pub open spec fn result_view(r: Result<Command, EdError>) -> Result<CommandV, ErrKind> {
    match r {
        Ok(c) => Ok(c@),
        Err(e) => Err(e@),
    }
}

impl Parser {
    pub fn new() -> (r: Self)
        ensures
            r@ is None,
    {
        Parser { mlc: None }
    }

    /// Parses one input line (see `parse_line`), for a line that parses
    /// without overflowing.
    pub fn parse(&mut self, input: &str) -> (r: Result<Command, EdError>)
        requires
            parse_line(old(self)@, input@) is Some,
        ensures
            parse_line(old(self)@, input@) == Some((result_view(r), final(self)@)),
    {
        let r = self.parse_checked(input);
        match r {
            Some(c) => c,
            None => Err(EdError::UnexpectedState),
        }
    }

    /// Parses one input line; `None` exactly for the lines whose parsing
    /// overflows or does not end.
    pub fn parse_checked(&mut self, input: &str) -> (r: Option<Result<Command, EdError>>)
        ensures
            match parse_line(old(self)@, input@) {
                Some((res, pending)) => r is Some && result_view(r->0) == res && final(self)@
                    == pending,
                None => r is None,
            },
    {
        match self.mlc.take() {
            Some((cmd, address)) => {
                return Some(self.handle_mlc(cmd, address, input));
            },
            None => {},
        }
        let mut parser = ParserInternal::new(input);
        let address = match parser.parse_address() {
            Some(a) => a,
            None => {
                return None;
            },
        };
        let (kind, suffix) = match parser.parse_command() {
            None => {
                return None;
            },
            Some(Err(e)) => {
                return Some(Err(e));
            },
            Some(Ok(ks)) => ks,
        };
        match kind {
            CommandKind::InternalListLastAffectedLine => {
                if address.is_none() {
                    return Some(Err(EdError::UnknownCommand));
                }
                Some(Ok(Command::new(address, kind, suffix)))
            },
            CommandKind::MultiLineCommand(cmd) => {
                self.mlc = Some((cmd, address));
                Some(Ok(Command::empty(CommandKind::NoOp)))
            },
            _ => Some(Ok(Command::new(address, kind, suffix))),
        }
    }

    fn handle_mlc(&mut self, cmd: MLCSubstitution, address: Address, line: &str) -> (r: Result<
        Command,
        EdError,
    >)
        requires
            old(self)@ is None,
        ensures
            match continue_subs(mlc_view(cmd), line@) {
                Err(k) => r is Err && r->Err_0@ == k && final(self)@ is None,
                Ok(m2) => if m2.is_done {
                    result_view(r) == Ok::<CommandV, ErrKind>(
                        CommandV {
                            address: address@,
                            kind: KindV::Substitution {
                                re: m2.re,
                                sub: m2.sub,
                                flag: m2.flag,
                                repeated: false,
                            },
                            suffix: match m2.suffix {
                                Some(b) => Some(*b),
                                None => None,
                            },
                        },
                    ) && final(self)@ is None
                } else {
                    result_view(r) == Ok::<CommandV, ErrKind>(
                        CommandV { address: AddressV::Absent, kind: KindV::NoOp, suffix: None },
                    ) && final(self)@ == Some((m2, address@))
                },
            },
    {
        let mut cmd = cmd;
        match cmd.handle_line(line) {
            Ok(()) => {},
            Err(e) => {
                return Err(e);
            },
        }
        if cmd.is_done() {
            let (kind, suffix) = cmd.finish();
            self.mlc = None;
            Ok(Command::new(address, kind, suffix))
        } else {
            self.mlc = Some((cmd, address));
            Ok(Command::empty(CommandKind::NoOp))
        }
    }
}

} // verus!
