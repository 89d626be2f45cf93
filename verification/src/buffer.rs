//! The text being edited: its lines, the current line, the addressed range,
//! and how addresses resolve against them.
use vstd::prelude::*;
use vstd::slice::slice_subrange;
use vstd::string::StringExecFns;
use crate::pattern::{compile, is_match, regex_compiles, regex_is_match};
use crate::state::{
    Address, AddressV, CommandKind, EdError, ErrKind, KindV, Line, LineV, opt_str, strs, opt_kind,
};
use crate::text::{
    push_decimal, decimal, string_from_chars, chars_of, trim_chars, trim, concat, trim_newlines,
    trim_newlines_chars,
};

verus! {

/// Adds an offset to a line number; an address out of `usize` is invalid.
pub open spec fn add_offset(base: int, o: isize) -> Result<usize, ErrKind> {
    if 0 <= base + o <= usize::MAX {
        Ok((base + o) as usize)
    } else {
        Err(ErrKind::InvalidAddress)
    }
}

pub open spec fn sat_sub1(n: usize) -> int {
    if n == 0 {
        0
    } else {
        n - 1
    }
}

/// The index of the line that a search looks at in its `k`-th step: forward
/// searches start after the current line, backward ones before it, and both
/// wrap around.
pub open spec fn search_index(len: nat, cur: usize, forward: bool, k: int) -> int {
    if forward {
        ((cur as int % len as int) + k) % (len as int)
    } else {
        (sat_sub1(cur) + len - 1 - k) % (len as int)
    }
}

/// The index of the first line, in search order from step `k` on, that the
/// regular expression matches.
pub open spec fn first_match(
    lines: Seq<Seq<char>>,
    src: Seq<char>,
    cur: usize,
    forward: bool,
    k: int,
) -> Option<int>
    decreases lines.len() - k,
{
    if k < 0 || k >= lines.len() {
        None
    } else if regex_is_match(src, lines[search_index(lines.len(), cur, forward, k)]) {
        Some(search_index(lines.len(), cur, forward, k))
    } else {
        first_match(lines, src, cur, forward, k + 1)
    }
}

/// A regular expression search for `src`, and the remembered expression
/// afterwards (`re`); `None` where the line number arithmetic overflows.
pub open spec fn search_line(
    lines: Seq<Seq<char>>,
    cur: usize,
    src: Seq<char>,
    re: Option<Seq<char>>,
    forward: bool,
    o: isize,
) -> (Option<Result<usize, ErrKind>>, Option<Seq<char>>) {
    if !regex_compiles(src) {
        (Some(Err(ErrKind::RegexError)), re)
    } else if !forward && lines.len() > 0 && sat_sub1(cur) + lines.len() > usize::MAX {
        (None, re)
    } else {
        match first_match(lines, src, cur, forward, 0) {
            None => (Some(Err(ErrKind::RegexNotFound)), re),
            Some(idx) => (Some(add_offset(idx + 1, o)), re),
        }
    }
}

/// The line number a line address stands for, given the lines, the current
/// line and the remembered regular expression, and the remembered
/// expression afterwards; `None` where the line number arithmetic overflows.
pub open spec fn resolve_line(
    lines: Seq<Seq<char>>,
    cur: usize,
    last_re: Option<Seq<char>>,
    l: LineV,
) -> (Option<Result<usize, ErrKind>>, Option<Seq<char>>) {
    match l {
        LineV::Current(o) => (Some(add_offset(cur as int, o)), last_re),
        LineV::Offset(o) => (Some(add_offset(cur as int, o)), last_re),
        LineV::First(o) => if o == isize::MAX {
            (None, last_re)
        } else if o >= 0 {
            (Some(Ok((o + 1) as usize)), last_re)
        } else {
            (Some(Err(ErrKind::InvalidAddress)), last_re)
        },
        LineV::Last(o) => (Some(add_offset(lines.len() as int, o)), last_re),
        LineV::Absolute(v, o) => (Some(add_offset(v as int, o)), last_re),
        LineV::Regex(body, o) => if body.len() == 0 {
            match last_re {
                None => (Some(Err(ErrKind::RegexInvalid)), last_re),
                Some(src) => search_line(lines, cur, src, last_re, true, o),
            }
        } else {
            search_line(lines, cur, body, Some(body), true, o)
        },
        LineV::RegexBackward(body, o) => if body.len() == 0 {
            match last_re {
                None => (Some(Err(ErrKind::RegexInvalid)), last_re),
                Some(src) => search_line(lines, cur, src, last_re, false, o),
            }
        } else {
            search_line(lines, cur, body, Some(body), false, o)
        },
    }
}

/// The pair of line numbers an address stands for (see `resolve_line`); a
/// single line stands for itself twice, and after `;` the first line is
/// current while the second resolves.
pub open spec fn resolve_address(
    lines: Seq<Seq<char>>,
    cur: usize,
    last_re: Option<Seq<char>>,
    a: AddressV,
) -> (Option<Result<(usize, usize), ErrKind>>, Option<Seq<char>>) {
    match a {
        AddressV::Absent => (Some(Ok((cur, cur))), last_re),
        AddressV::Single(l) => {
            let (r, re1) = resolve_line(lines, cur, last_re, l);
            (
                match r {
                    None => None,
                    Some(Err(k)) => Some(Err(k)),
                    Some(Ok(x)) => Some(Ok((x, x))),
                },
                re1,
            )
        },
        AddressV::Range(l1, l2) => {
            let (r, re1) = resolve_line(lines, cur, last_re, l1);
            match r {
                None => (None, re1),
                Some(Err(k)) => (Some(Err(k)), re1),
                Some(Ok(x)) => {
                    let (r2, re2) = resolve_line(lines, cur, re1, l2);
                    (
                        match r2 {
                            None => None,
                            Some(Err(k)) => Some(Err(k)),
                            Some(Ok(y)) => Some(Ok((x, y))),
                        },
                        re2,
                    )
                },
            }
        },
        AddressV::RangeSemicolon(l1, l2) => {
            let (r, re1) = resolve_line(lines, cur, last_re, l1);
            match r {
                None => (None, re1),
                Some(Err(k)) => (Some(Err(k)), re1),
                Some(Ok(x)) => {
                    let (r2, re2) = resolve_line(lines, x, re1, l2);
                    (
                        match r2 {
                            None => None,
                            Some(Err(k)) => Some(Err(k)),
                            Some(Ok(y)) => Some(Ok((x, y))),
                        },
                        re2,
                    )
                },
            }
        },
    }
}

pub open spec fn opt_result<T>(r: Option<Result<T, EdError>>) -> Option<Result<T, ErrKind>> {
    match r {
        None => None,
        Some(Ok(v)) => Some(Ok(v)),
        Some(Err(e)) => Some(Err(e@)),
    }
}

pub open spec fn result_kind<T>(r: Result<T, EdError>) -> Result<T, ErrKind> {
    match r {
        Ok(v) => Ok(v),
        Err(e) => Err(e@),
    }
}

/// What a buffer holds: its text, the current line, the addressed range,
/// where a change began inserting, and what searches and substitutions
/// remember.
pub struct BufferV {
    pub text: Seq<Seq<char>>,
    pub cur: usize,
    pub range: (usize, usize),
    pub anchor: Option<usize>,
    pub re: Option<Seq<char>>,
    pub flag: Option<Seq<char>>,
    pub subs: Option<Seq<Seq<char>>>,
    pub suffix: Option<KindV>,
}

impl BufferV {
    /// The resolution of an address against this buffer.
    pub open spec fn resolved(self, a: AddressV) -> (
        Option<Result<(usize, usize), ErrKind>>,
        Option<Seq<char>>,
    ) {
        resolve_address(self.text, self.cur, self.re, a)
    }

    /// Whether the address resolves without its arithmetic overflowing.
    pub open spec fn resolves(self, a: AddressV) -> bool {
        self.resolved(a).0 is Some
    }
}

/// The lines of the text, the current line, the addressed range and the
/// remembered state of searches and substitutions.
pub struct Buffer {
    lines: Vec<String>,
    last_affected_line: usize,
    line_range: (usize, usize),
    change_anchor: Option<usize>,
    last_re: Option<String>,
    last_flag: Option<String>,
    last_sub: Option<Vec<String>>,
    last_suffix: Option<CommandKind>,
}

pub open spec fn opt_strs(o: Option<Vec<String>>) -> Option<Seq<Seq<char>>> {
    match o {
        Some(v) => Some(strs(v)),
        None => None,
    }
}

impl View for Buffer {
    type V = BufferV;

    closed spec fn view(&self) -> BufferV {
        BufferV {
            text: strs(self.lines),
            cur: self.last_affected_line,
            range: self.line_range,
            anchor: self.change_anchor,
            re: opt_str(self.last_re),
            flag: opt_str(self.last_flag),
            subs: opt_strs(self.last_sub),
            suffix: opt_kind(self.last_suffix),
        }
    }
}

impl Buffer {
    /// The text, one character sequence per line.
    pub open spec fn text(&self) -> Seq<Seq<char>> {
        self@.text
    }

    /// The current line (0 before the first line).
    pub open spec fn current(&self) -> usize {
        self@.cur
    }

    /// The addressed range of line numbers.
    pub open spec fn range(&self) -> (usize, usize) {
        self@.range
    }

    /// The position a change began inserting at, until its input ends.
    pub open spec fn anchor(&self) -> Option<usize> {
        self@.anchor
    }

    /// The regular expression searches and substitutions remember.
    pub open spec fn re(&self) -> Option<Seq<char>> {
        self@.re
    }

    /// The flag substitutions remember.
    pub open spec fn flag(&self) -> Option<Seq<char>> {
        self@.flag
    }

    /// The replacement substitutions remember.
    pub open spec fn subs(&self) -> Option<Seq<Seq<char>>> {
        self@.subs
    }

    /// The print suffix repeated substitutions remember.
    pub open spec fn suffix(&self) -> Option<KindV> {
        self@.suffix
    }

    /// The resolution of an address against this buffer.
    pub open spec fn resolved(&self, a: AddressV) -> (
        Option<Result<(usize, usize), ErrKind>>,
        Option<Seq<char>>,
    ) {
        self@.resolved(a)
    }

    /// Whether the address resolves without its arithmetic overflowing.
    pub open spec fn resolves(&self, a: AddressV) -> bool {
        self.resolved(a).0 is Some
    }

    /// Everything but the remembered regular expression is as in `other`.
    pub open spec fn same_but_re(&self, other: &Buffer) -> bool {
        &&& self.text() == other.text()
        &&& self.current() == other.current()
        &&& self.range() == other.range()
        &&& self.anchor() == other.anchor()
        &&& self.flag() == other.flag()
        &&& self.subs() == other.subs()
        &&& self.suffix() == other.suffix()
    }

    pub fn new() -> (r: Self)
        ensures
            r.text() == Seq::<Seq<char>>::empty(),
            r.current() == 0,
            r.range() == (0usize, 0usize),
            r.anchor() is None,
            r.re() is None,
            r.flag() is None,
            r.subs() is None,
            r.suffix() is None,
    {
        let lines: Vec<String> = Vec::new();
        assert(strs(lines) =~= Seq::<Seq<char>>::empty());
        Buffer {
            lines,
            last_affected_line: 0,
            line_range: (0, 0),
            change_anchor: None,
            last_re: None,
            last_flag: None,
            last_sub: None,
            last_suffix: None,
        }
    }

    /// Number of lines.
    pub fn len(&self) -> (r: usize)
        ensures
            r == self.text().len(),
    {
        self.lines.len()
    }

    /// The current line.
    pub fn current_line(&self) -> (r: usize)
        ensures
            r == self.current(),
    {
        self.last_affected_line
    }
}

/// `usize::checked_add_signed`, with the error the editor gives.
fn add_signed(base: usize, o: isize) -> (r: Result<usize, EdError>)
    ensures
        result_kind(r) == add_offset(base as int, o),
{
    let v: i128 = base as i128 + o as i128;
    if 0 <= v && v <= usize::MAX as i128 {
        Ok(v as usize)
    } else {
        Err(EdError::InvalidAddress)
    }
}

impl Buffer {
    /// The line a regular expression address stands for.
    #[verifier::loop_isolation(false)]
    fn regex_line(&mut self, body: &String, o: isize, forward: bool) -> (r: Option<
        Result<usize, EdError>,
    >)
        ensures
            final(self).same_but_re(old(self)),
            (opt_result(r), final(self).re()) == (if body@.len() == 0 {
                match old(self).re() {
                    None => (Some(Err(ErrKind::RegexInvalid)), old(self).re()),
                    Some(src) => search_line(
                        old(self).text(),
                        old(self).current(),
                        src,
                        old(self).re(),
                        forward,
                        o,
                    ),
                }
            } else {
                search_line(
                    old(self).text(),
                    old(self).current(),
                    body@,
                    Some(body@),
                    forward,
                    o,
                )
            }),
    {
        let src: String = if body.as_str().is_empty() {
            match &self.last_re {
                None => {
                    return Some(Err(EdError::RegexInvalid));
                },
                Some(r) => r.clone(),
            }
        } else {
            self.last_re = Some(body.clone());
            body.clone()
        };
        let pat = match compile(src.as_str()) {
            Ok(p) => p,
            Err(e) => {
                return Some(Err(EdError::RegexError(e)));
            },
        };
        let len = self.lines.len();
        let ghost lines = self.text();
        let cur = self.last_affected_line;
        if len == 0 {
            return Some(Err(EdError::RegexNotFound));
        }
        let start: usize = if forward {
            cur % len
        } else if cur == 0 {
            0
        } else {
            cur - 1
        };
        if !forward && start > usize::MAX - len {
            return None;
        }
        let mut k: usize = 0;
        while k < len
            invariant
                0 <= k <= len,
                len == lines.len(),
                len > 0,
                lines == self.text(),
                lines == strs(self.lines),
                cur == self.current(),
                forward ==> start == cur % len,
                !forward ==> start == sat_sub1(cur) && start + len <= usize::MAX,
                first_match(lines, pat@, cur, forward, k as int) == first_match(
                    lines,
                    pat@,
                    cur,
                    forward,
                    0,
                ),
            decreases len - k,
        {
            let idx: usize = if forward {
                ((start as u128 + k as u128) % (len as u128)) as usize
            } else {
                (start + len - 1 - k) % len
            };
            assert(idx == search_index(len as nat, cur, forward, k as int));
            assert(self.lines@[idx as int]@ == lines[idx as int]);
            if is_match(&pat, self.lines[idx].as_str()) {
                return Some(add_signed(idx + 1, o));
            }
            k = k + 1;
        }
        Some(Err(EdError::RegexNotFound))
    }

    /// The line number a line address stands for (see `resolve_line`);
    /// `None` where its arithmetic overflows.
    fn parse_line(&mut self, line: &Line) -> (r: Option<Result<usize, EdError>>)
        ensures
            final(self).same_but_re(old(self)),
            (opt_result(r), final(self).re()) == resolve_line(
                old(self).text(),
                old(self).current(),
                old(self).re(),
                line@,
            ),
    {
        match line {
            Line::Current(o) => Some(add_signed(self.last_affected_line, *o)),
            Line::Offset(o) => Some(add_signed(self.last_affected_line, *o)),
            Line::First(o) => {
                if *o == isize::MAX {
                    None
                } else if *o + 1 >= 1 {
                    Some(Ok((*o as usize) + 1))
                } else {
                    Some(Err(EdError::InvalidAddress))
                }
            },
            Line::Last(o) => Some(add_signed(self.lines.len(), *o)),
            Line::Absolute(v, o) => Some(add_signed(*v, *o)),
            Line::Regex(body, o) => self.regex_line(body, *o, true),
            Line::RegexBackward(body, o) => self.regex_line(body, *o, false),
        }
    }

    /// The pair of line numbers an address stands for (see
    /// `resolve_address`); `None` where its arithmetic overflows.
    fn parse_address(&mut self, address: &Address) -> (r: Option<Result<(usize, usize), EdError>>)
        ensures
            final(self).same_but_re(old(self)),
            (opt_result(r), final(self).re()) == old(self).resolved(address@),
    {
        match address {
            Address::Absent => Some(Ok((self.last_affected_line, self.last_affected_line))),
            Address::Single(line) => match self.parse_line(line) {
                None => None,
                Some(Err(e)) => Some(Err(e)),
                Some(Ok(x)) => Some(Ok((x, x))),
            },
            Address::Range(line, line1) => match self.parse_line(line) {
                None => None,
                Some(Err(e)) => Some(Err(e)),
                Some(Ok(x)) => match self.parse_line(line1) {
                    None => None,
                    Some(Err(e)) => Some(Err(e)),
                    Some(Ok(y)) => Some(Ok((x, y))),
                },
            },
            Address::RangeSemicolon(line, line1) => match self.parse_line(line) {
                None => None,
                Some(Err(e)) => Some(Err(e)),
                Some(Ok(first)) => {
                    let old_line = self.last_affected_line;
                    self.last_affected_line = first;
                    let second = self.parse_line(line1);
                    self.last_affected_line = old_line;
                    match second {
                        None => None,
                        Some(Err(e)) => Some(Err(e)),
                        Some(Ok(y)) => Some(Ok((first, y))),
                    }
                },
            },
        }
    }

    /// Whether the address resolves without overflowing.
    pub fn address_resolves(&self, address: &Address) -> (r: bool)
        ensures
            r == self.resolves(address@),
    {
        let mut probe = self.probe_copy();
        probe.parse_address(address).is_some()
    }

    /// A copy of the parts of the buffer that address resolution reads.
    fn probe_copy(&self) -> (r: Buffer)
        ensures
            r.text() == self.text(),
            r.current() == self.current(),
            r.re() == self.re(),
    {
        let mut lines: Vec<String> = Vec::new();
        let mut i: usize = 0;
        while i < self.lines.len()
            invariant
                i <= self.lines@.len(),
                strs(lines) == strs(self.lines).take(i as int),
            decreases self.lines@.len() - i,
        {
            let ghost before = strs(lines);
            let c = self.lines[i].clone();
            lines.push(c);
            assert(strs(lines) =~= before.push(c@));
            assert(strs(self.lines).take(i + 1) =~= strs(self.lines).take(i as int).push(
                self.lines@[i as int]@,
            ));
            i = i + 1;
        }
        assert(strs(self.lines).take(i as int) =~= strs(self.lines));
        Buffer {
            lines,
            last_affected_line: self.last_affected_line,
            line_range: self.line_range,
            change_anchor: None,
            last_re: match &self.last_re {
                Some(r) => Some(r.clone()),
                None => None,
            },
            last_flag: None,
            last_sub: None,
            last_suffix: None,
        }
    }
}

/// Whether a range of line numbers (1-based, inclusive) picks lines of a
/// text with `len` lines: it starts at 1 or later, ends at `len` or earlier,
/// and is empty at worst (its start just past its end).
pub open spec fn span_ok(len: nat, r: (usize, usize)) -> bool {
    1 <= r.0 && 1 <= r.1 && r.0 - 1 <= r.1 && r.1 <= len
}

pub open spec fn max(a: usize, b: usize) -> usize {
    if a >= b {
        a
    } else {
        b
    }
}

pub open spec fn min(a: int, b: int) -> int {
    if a <= b {
        a
    } else {
        b
    }
}

/// The text without the lines of a range.
pub open spec fn without(text: Seq<Seq<char>>, r: (usize, usize)) -> Seq<Seq<char>> {
    text.take(r.0 - 1) + text.skip(r.1 as int)
}

/// The text with `block` inserted before index `at`.
pub open spec fn inserted(text: Seq<Seq<char>>, at: int, block: Seq<Seq<char>>) -> Seq<Seq<char>> {
    text.take(at) + block + text.skip(at)
}

impl Buffer {
    /// All that commands remember besides the text and the position.
    pub open spec fn keeps_memory(&self, other: &Buffer) -> bool {
        &&& self.re() == other.re()
        &&& self.flag() == other.flag()
        &&& self.subs() == other.subs()
        &&& self.suffix() == other.suffix()
        &&& self.anchor() == other.anchor()
    }

    /// Sets the range and the current line to an address, for a command
    /// that inserts text; the address must lie within the text.
    pub fn set_mode(&mut self, address: &Address) -> (r: Result<(), EdError>)
        requires
            old(self).resolves(address@),
        ensures
            final(self).re() == old(self).resolved(address@).1,
            final(self).text() == old(self).text(),
            final(self).flag() == old(self).flag(),
            final(self).subs() == old(self).subs(),
            final(self).suffix() == old(self).suffix(),
            final(self).anchor() == old(self).anchor(),
            match old(self).resolved(address@).0 {
                Some(Ok((x, y))) => if max(x, y) > old(self).text().len() {
                    r matches Err(e) && e@ == ErrKind::InvalidAddress && final(self).range()
                        == old(self).range() && final(self).current() == old(self).current()
                } else {
                    r is Ok && final(self).range() == (x, y) && final(self).current() == y
                },
                Some(Err(k)) => r matches Err(e) && e@ == k && final(self).range() == old(
                    self,
                ).range() && final(self).current() == old(self).current(),
                None => false,
            },
    {
        let address = match self.parse_address(address) {
            Some(Ok(a)) => a,
            Some(Err(e)) => {
                return Err(e);
            },
            None => {
                return Err(EdError::UnexpectedState);
            },
        };
        let top = if address.0 >= address.1 {
            address.0
        } else {
            address.1
        };
        if top > self.lines.len() {
            return Err(EdError::InvalidAddress);
        }
        self.line_range = address;
        self.last_affected_line = self.line_range.1;
        Ok(())
    }

    /// As `set_mode`, for a command that inserts before the addressed line.
    pub fn set_mode_insert(&mut self, address: &Address) -> (r: Result<(), EdError>)
        requires
            old(self).resolves(address@),
        ensures
            final(self).re() == old(self).resolved(address@).1,
            final(self).text() == old(self).text(),
            final(self).flag() == old(self).flag(),
            final(self).subs() == old(self).subs(),
            final(self).suffix() == old(self).suffix(),
            final(self).anchor() == old(self).anchor(),
            match old(self).resolved(address@).0 {
                Some(Ok((x, y))) => if max(x, y) > old(self).text().len() {
                    r matches Err(e) && e@ == ErrKind::InvalidAddress && final(self).range()
                        == old(self).range() && final(self).current() == old(self).current()
                } else {
                    r is Ok && final(self).range() == (x, sat_sub1(y) as usize)
                        && final(self).current() == sat_sub1(y)
                },
                Some(Err(k)) => r matches Err(e) && e@ == k && final(self).range() == old(
                    self,
                ).range() && final(self).current() == old(self).current(),
                None => false,
            },
    {
        let address = match self.parse_address(address) {
            Some(Ok(a)) => a,
            Some(Err(e)) => {
                return Err(e);
            },
            None => {
                return Err(EdError::UnexpectedState);
            },
        };
        let top = if address.0 >= address.1 {
            address.0
        } else {
            address.1
        };
        if top > self.lines.len() {
            return Err(EdError::InvalidAddress);
        }
        let below = if address.1 == 0 {
            0
        } else {
            address.1 - 1
        };
        self.line_range = (address.0, below);
        self.last_affected_line = self.line_range.1;
        Ok(())
    }

    /// Sets the range to an address, whether or not it lies within the text.
    pub fn set_range(&mut self, address: &Address) -> (r: Result<(), EdError>)
        requires
            old(self).resolves(address@),
        ensures
            final(self).re() == old(self).resolved(address@).1,
            final(self).text() == old(self).text(),
            final(self).current() == old(self).current(),
            final(self).flag() == old(self).flag(),
            final(self).subs() == old(self).subs(),
            final(self).suffix() == old(self).suffix(),
            final(self).anchor() == old(self).anchor(),
            match old(self).resolved(address@).0 {
                Some(Ok(p)) => r is Ok && final(self).range() == p,
                Some(Err(k)) => r matches Err(e) && e@ == k && final(self).range() == old(
                    self,
                ).range(),
                None => false,
            },
    {
        match self.parse_address(address) {
            Some(Ok(a)) => {
                self.line_range = a;
                Ok(())
            },
            Some(Err(e)) => Err(e),
            None => Err(EdError::UnexpectedState),
        }
    }

    /// Inserts a line after the current line, which it becomes.
    pub fn append(&mut self, line: &str)
        requires
            old(self).current() <= old(self).text().len(),
        ensures
            final(self).text() == old(self).text().insert(old(self).current() as int, line@),
            final(self).current() == old(self).current() + 1,
            final(self).range() == old(self).range(),
            final(self).keeps_memory(old(self)),
    {
        let ghost before = strs(self.lines);
        let s = line.to_owned();
        self.lines.insert(self.last_affected_line, s);
        assert(strs(self.lines) =~= before.insert(old(self).current() as int, line@));
        let count = self.lines.len();
        assert(self.last_affected_line < count);
        self.last_affected_line = self.last_affected_line + 1;
    }

    /// Removes the lines of the range and hands them back; the current line
    /// becomes the first line after them, as numbered before the removal.
    pub fn delete(&mut self) -> (r: Result<Vec<String>, EdError>)
        ensures
            final(self).range() == old(self).range(),
            final(self).keeps_memory(old(self)),
            if span_ok(old(self).text().len(), old(self).range()) {
                r matches Ok(v) && strs(v) == old(self).text().subrange(
                    old(self).range().0 - 1,
                    old(self).range().1 as int,
                ) && final(self).text() == without(old(self).text(), old(self).range())
                    && final(self).current() == min(
                    old(self).range().0 as int,
                    old(self).text().len() as int,
                )
            } else {
                r matches Err(e) && e@ == ErrKind::InvalidRange && final(self).text() == old(
                    self,
                ).text() && final(self).current() == old(self).current()
            },
    {
        let (r0, r1) = self.line_range;
        if r0 == 0 || r1 == 0 {
            return Err(EdError::InvalidRange);
        }
        let from = r0 - 1;
        let to = r1 - 1;
        if !(from <= to + 1 && to + 1 <= self.lines.len()) {
            return Err(EdError::InvalidRange);
        }
        let len = self.lines.len();
        self.last_affected_line = if from + 1 <= len {
            from + 1
        } else {
            len
        };
        let ghost t = strs(self.lines);
        let mut tail = self.lines.split_off(to + 1);
        let yanked = self.lines.split_off(from);
        self.lines.append(&mut tail);
        assert(strs(yanked) =~= t.subrange(from as int, to + 1));
        assert(strs(self.lines) =~= without(t, old(self).range()));
        Ok(yanked)
    }

    /// Makes the line before the range current, for the text that replaces
    /// it; an input that ends at once leaves the line after it current.
    pub fn adj_change(&mut self) -> (r: Result<(), EdError>)
        ensures
            final(self).text() == old(self).text(),
            final(self).range() == old(self).range(),
            final(self).re() == old(self).re(),
            final(self).flag() == old(self).flag(),
            final(self).subs() == old(self).subs(),
            final(self).suffix() == old(self).suffix(),
            if old(self).range().0 == 0 {
                r matches Err(e) && e@ == ErrKind::InvalidRange && final(self).current() == old(
                    self,
                ).current() && final(self).anchor() == old(self).anchor()
            } else {
                r is Ok && final(self).current() == old(self).range().0 - 1 && final(self).anchor()
                    == Some((old(self).range().0 - 1) as usize)
            },
    {
        if self.line_range.0 == 0 {
            return Err(EdError::InvalidRange);
        }
        self.last_affected_line = self.line_range.0 - 1;
        self.change_anchor = Some(self.last_affected_line);
        Ok(())
    }

    /// Ends the input of text: after a change that received no line, the
    /// line after the changed range becomes current.
    pub fn exit_mode(&mut self) -> (r: Result<(), EdError>)
        ensures
            r is Ok,
            final(self).text() == old(self).text(),
            final(self).range() == old(self).range(),
            final(self).re() == old(self).re(),
            final(self).flag() == old(self).flag(),
            final(self).subs() == old(self).subs(),
            final(self).suffix() == old(self).suffix(),
            final(self).anchor() is None,
            final(self).current() == (if old(self).anchor() == Some(old(self).current()) {
                min(old(self).current() + 1, old(self).text().len() as int) as usize
            } else {
                old(self).current()
            }),
    {
        if self.change_anchor == Some(self.last_affected_line) {
            let len = self.lines.len();
            self.last_affected_line = if self.last_affected_line < len {
                self.last_affected_line + 1
            } else {
                len
            };
        }
        self.change_anchor = None;
        Ok(())
    }

    /// Replaces line `i` (1-based), which becomes current.
    pub fn change_line_at(&mut self, i: usize, content: &str) -> (r: Result<(), EdError>)
        ensures
            final(self).range() == old(self).range(),
            final(self).keeps_memory(old(self)),
            if 1 <= i <= old(self).text().len() {
                r is Ok && final(self).text() == old(self).text().update(i - 1, content@)
                    && final(self).current() == i
            } else {
                r matches Err(e) && e@ == ErrKind::InvalidRange && final(self).text() == old(
                    self,
                ).text() && final(self).current() == old(self).current()
            },
    {
        if i == 0 || i > self.lines.len() {
            return Err(EdError::InvalidRange);
        }
        let ghost before = strs(self.lines);
        let s = content.to_owned();
        self.lines.remove(i - 1);
        self.lines.insert(i - 1, s);
        assert(strs(self.lines) =~= before.update(i - 1, content@));
        self.last_affected_line = i;
        Ok(())
    }
}

/// A line as the `l` command shows it: tabs and backslashes escaped,
/// newlines left out.
pub open spec fn escape_from(s: Seq<char>, i: int) -> Seq<char>
    decreases s.len() - i,
{
    if i < 0 || i >= s.len() {
        Seq::empty()
    } else {
        (if s[i] == '\t' {
            seq!['\\', 't']
        } else if s[i] == '\\' {
            seq!['\\', '\\']
        } else if s[i] == '\n' {
            Seq::empty()
        } else {
            seq![s[i]]
        }) + escape_from(s, i + 1)
    }
}

/// One shown line: its number and a tab if numbered; then either the
/// escaped line and `$`, or the line without surrounding whitespace; then a
/// newline.
pub open spec fn shown_line(line: Seq<char>, well_defined: bool, numbered: bool, n: nat) -> Seq<
    char,
> {
    (if numbered {
        decimal(n) + seq!['\t']
    } else {
        Seq::empty()
    }) + (if well_defined {
        escape_from(line, 0) + seq!['$', '\n']
    } else {
        trim(line) + seq!['\n']
    })
}

/// The shown lines from index `i` on, the first being numbered `start`.
pub open spec fn render_from(
    lines: Seq<Seq<char>>,
    well_defined: bool,
    numbered: bool,
    start: nat,
    i: int,
) -> Seq<char>
    decreases lines.len() - i,
{
    if i < 0 || i >= lines.len() {
        Seq::empty()
    } else {
        shown_line(lines[i], well_defined, numbered, start + i as nat) + render_from(
            lines,
            well_defined,
            numbered,
            start,
            i + 1,
        )
    }
}

/// Lines of the buffer as a print command shows them.
pub struct BufferView<'a> {
    lines: &'a [String],
    well_defined: bool,
    numbered: bool,
    range_start: usize,
}

pub open spec fn slice_strs(s: &[String]) -> Seq<Seq<char>> {
    s@.map_values(|x: String| x@)
}

impl<'a> BufferView<'a> {
    /// The lines shown.
    pub closed spec fn shown(&self) -> Seq<Seq<char>> {
        slice_strs(self.lines)
    }

    /// Whether lines are shown escaped and ended by `$` (the `l` command).
    pub closed spec fn is_well_defined(&self) -> bool {
        self.well_defined
    }

    /// Whether lines are shown with their numbers (the `n` command).
    pub closed spec fn is_numbered(&self) -> bool {
        self.numbered
    }

    /// The number shown for the first line.
    pub closed spec fn start(&self) -> usize {
        self.range_start
    }

    /// The text a print command writes for these lines.
    pub open spec fn rendered(&self) -> Seq<char> {
        render_from(self.shown(), self.is_well_defined(), self.is_numbered(), self.start() as nat, 0)
    }

    fn new(lines: &'a [String], range_start: usize) -> (r: Self)
        ensures
            r.shown() == slice_strs(lines),
            !r.is_well_defined(),
            !r.is_numbered(),
            r.start() == range_start,
    {
        BufferView { lines, well_defined: false, numbered: false, range_start }
    }

    /// Shows the lines as the `l` command does.
    pub fn well_defined(self) -> (r: Self)
        ensures
            r.shown() == self.shown(),
            r.is_well_defined(),
            r.is_numbered() == self.is_numbered(),
            r.start() == self.start(),
    {
        let mut v = self;
        v.well_defined = true;
        v
    }

    /// Shows the lines as the `n` command does.
    pub fn numbered(self) -> (r: Self)
        ensures
            r.shown() == self.shown(),
            r.is_well_defined() == self.is_well_defined(),
            r.is_numbered(),
            r.start() == self.start(),
    {
        let mut v = self;
        v.numbered = true;
        v
    }

    /// Copies of the lines shown.
    pub fn into_lines(self) -> (r: Vec<String>)
        ensures
            strs(r) == self.shown(),
    {
        let mut out: Vec<String> = Vec::new();
        let mut i: usize = 0;
        while i < self.lines.len()
            invariant
                i <= self.lines@.len(),
                strs(out) == slice_strs(self.lines).take(i as int),
            decreases self.lines@.len() - i,
        {
            let ghost before = strs(out);
            let c = self.lines[i].clone();
            out.push(c);
            assert(strs(out) =~= before.push(c@));
            assert(slice_strs(self.lines).take(i + 1) =~= slice_strs(self.lines).take(
                i as int,
            ).push(self.lines@[i as int]@));
            i = i + 1;
        }
        assert(slice_strs(self.lines).take(i as int) =~= slice_strs(self.lines));
        out
    }

    /// The text a print command writes for these lines.
    pub fn render(&self) -> (r: String)
        ensures
            r@ == self.rendered(),
    {
        let mut out: Vec<char> = Vec::new();
        let n = self.lines.len();
        let mut i: usize = 0;
        while i < n
            invariant
                i <= n,
                n == self.lines@.len(),
                out@ + render_from(
                    self.shown(),
                    self.well_defined,
                    self.numbered,
                    self.range_start as nat,
                    i as int,
                ) == self.rendered(),
            decreases n - i,
        {
            let ghost before = out@;
            let line = chars_of(self.lines[i].as_str());
            let ghost l = self.shown()[i as int];
            assert(line@ == l);
            if self.numbered {
                push_decimal(self.range_start as u128 + i as u128, &mut out);
                out.push('\t');
            }
            let ghost mid = out@;
            if self.well_defined {
                let mut k: usize = 0;
                while k < line.len()
                    invariant
                        k <= line@.len(),
                        out@ + escape_from(line@, k as int) == mid + escape_from(line@, 0),
                    decreases line@.len() - k,
                {
                    let c = line[k];
                    let ghost o = out@;
                    if c == '\t' {
                        out.push('\\');
                        out.push('t');
                    } else if c == '\\' {
                        out.push('\\');
                        out.push('\\');
                    } else if c == '\n' {
                    } else {
                        out.push(c);
                    }
                    assert(out@ + escape_from(line@, k + 1) == o + escape_from(line@, k as int));
                    k = k + 1;
                }
                out.push('$');
                out.push('\n');
                assert(out@ =~= mid + escape_from(line@, 0) + seq!['$', '\n']);
            } else {
                let t = trim_chars(line.as_slice());
                let mut k: usize = 0;
                while k < t.len()
                    invariant
                        k <= t@.len(),
                        out@ == mid + t@.take(k as int),
                    decreases t@.len() - k,
                {
                    out.push(t[k]);
                    k = k + 1;
                    assert(out@ =~= mid + t@.take(k as int));
                }
                out.push('\n');
                assert(out@ =~= mid + trim(l) + seq!['\n']);
            }
            assert(out@ =~= before + shown_line(
                l,
                self.well_defined,
                self.numbered,
                self.range_start as nat + i as nat,
            ));
            i = i + 1;
        }
        assert(out@ =~= self.rendered());
        string_from_chars(out.as_slice())
    }
}

impl Buffer {
    /// The lines of the range, whose last line becomes current.
    pub fn get_lines(&mut self) -> (r: Result<BufferView<'_>, EdError>)
        ensures
            final(self).text() == old(self).text(),
            final(self).range() == old(self).range(),
            final(self).keeps_memory(old(self)),
            if span_ok(old(self).text().len(), old(self).range()) {
                r matches Ok(v) && v.shown() == old(self).text().subrange(
                    old(self).range().0 - 1,
                    old(self).range().1 as int,
                ) && !v.is_well_defined() && !v.is_numbered() && v.start() == old(self).range().0
                    && final(self).current() == old(self).range().1
            } else {
                r matches Err(e) && e@ == ErrKind::InvalidRange && final(self).current() == old(
                    self,
                ).current()
            },
    {
        let (r0, r1) = self.line_range;
        if r0 == 0 || r1 == 0 {
            return Err(EdError::InvalidRange);
        }
        let from = r0 - 1;
        let to = r1 - 1;
        if !(from <= to + 1 && to + 1 <= self.lines.len()) {
            return Err(EdError::InvalidRange);
        }
        self.last_affected_line = r1;
        let lines = slice_subrange(self.lines.as_slice(), from, to + 1);
        assert(slice_strs(lines) =~= old(self).text().subrange(from as int, to + 1));
        Ok(BufferView::new(lines, r0))
    }

    /// The last line of the range, which becomes current; it is numbered
    /// with the number of lines.
    pub fn get_active_line(&mut self) -> (r: Result<BufferView<'_>, EdError>)
        ensures
            final(self).text() == old(self).text(),
            final(self).range() == old(self).range(),
            final(self).keeps_memory(old(self)),
            if sat_sub1(old(self).range().1) < old(self).text().len() {
                r matches Ok(v) && v.shown() == seq![
                    old(self).text()[sat_sub1(old(self).range().1)],
                ] && !v.is_well_defined() && !v.is_numbered() && v.start() == old(
                    self,
                ).text().len() && final(self).current() == old(self).range().1
            } else {
                r matches Err(e) && e@ == ErrKind::InvalidRange && final(self).current() == old(
                    self,
                ).current()
            },
    {
        let last = self.line_range.1;
        let idx = if last == 0 {
            0
        } else {
            last - 1
        };
        if idx >= self.lines.len() {
            return Err(EdError::InvalidRange);
        }
        self.last_affected_line = last;
        let count = self.lines.len();
        let line = slice_subrange(self.lines.as_slice(), idx, idx + 1);
        assert(slice_strs(line) =~= seq![old(self).text()[idx as int]]);
        Ok(BufferView::new(line, count))
    }

    /// The lines of the range, for editing in place; the last line becomes
    /// current.
    pub fn get_lines_mut(&mut self) -> (r: Result<&mut [String], EdError>)
        ensures
            final(self).range() == old(self).range(),
            final(self).keeps_memory(old(self)),
            if span_ok(old(self).text().len(), old(self).range()) {
                r matches Ok(v) && slice_strs(v) == old(self).text().subrange(
                    old(self).range().0 - 1,
                    old(self).range().1 as int,
                ) && final(self).current() == old(self).range().1 && final(self).text()
                    == old(self).text().take(old(self).range().0 - 1) + slice_strs(final(v))
                    + old(self).text().skip(old(self).range().1 as int)
            } else {
                r matches Err(e) && e@ == ErrKind::InvalidRange && final(self).current() == old(
                    self,
                ).current() && final(self).text() == old(self).text()
            },
    {
        let (r0, r1) = self.line_range;
        if r0 == 0 || r1 == 0 {
            return Err(EdError::InvalidRange);
        }
        let from = r0 - 1;
        let to = r1 - 1;
        if !(from <= to + 1 && to + 1 <= self.lines.len()) {
            return Err(EdError::InvalidRange);
        }
        self.last_affected_line = r1;
        let all = self.lines.as_mut_slice();
        let (_head, rest) = all.split_at_mut(from);
        let (mid, _tail) = rest.split_at_mut(to + 1 - from);
        Ok(mid)
    }
}

/// The lines a write saves, as a range of line numbers: by default all
/// lines (`None` when there are none).
pub open spec fn save_range(b: BufferV, a: AddressV) -> (Option<Result<Option<(usize, usize)>, ErrKind>>, Option<Seq<char>>) {
    if a is Absent {
        (
            Some(Ok(
                if b.text.len() == 0 {
                    None
                } else {
                    Some((1usize, b.text.len() as usize))
                },
            )),
            b.re,
        )
    } else {
        let (r, re) = b.resolved(a);
        (
            match r {
                None => None,
                Some(Err(k)) => Some(Err(k)),
                Some(Ok(p)) => Some(Ok(Some(p))),
            },
            re,
        )
    }
}

/// What a write of the lines of an address saves.
pub open spec fn saved_text(b: BufferV, a: AddressV) -> Result<Seq<char>, ErrKind> {
    match save_range(b, a).0 {
        Some(Ok(None)) => Ok(Seq::empty()),
        Some(Ok(Some(p))) => if span_ok(b.text.len(), p) {
            Ok(concat(b.text.subrange(p.0 - 1, p.1 as int)))
        } else {
            Err(ErrKind::InvalidRange)
        },
        Some(Err(k)) => Err(k),
        None => Err(ErrKind::UnexpectedState),
    }
}

/// The lines, the current line and the range, kept to be restored.
pub struct Snapshot {
    lines: Vec<String>,
    last_affected_line: usize,
    line_range: (usize, usize),
}

impl Snapshot {
    pub closed spec fn text(&self) -> Seq<Seq<char>> {
        strs(self.lines)
    }

    pub closed spec fn current(&self) -> usize {
        self.last_affected_line
    }

    pub closed spec fn range(&self) -> (usize, usize) {
        self.line_range
    }

    fn new(lines: Vec<String>, last_affected_line: usize, line_range: (usize, usize)) -> (r: Self)
        ensures
            r.text() == strs(lines),
            r.current() == last_affected_line,
            r.range() == line_range,
    {
        Snapshot { lines, last_affected_line, line_range }
    }
}

fn copy_lines(v: &Vec<String>) -> (r: Vec<String>)
    ensures
        strs(r) == strs(*v),
{
    let mut out: Vec<String> = Vec::new();
    let mut i: usize = 0;
    while i < v.len()
        invariant
            i <= v@.len(),
            strs(out) == strs(*v).take(i as int),
        decreases v@.len() - i,
    {
        let ghost before = strs(out);
        let c = v[i].clone();
        out.push(c);
        assert(strs(out) =~= before.push(c@));
        assert(strs(*v).take(i + 1) =~= strs(*v).take(i as int).push(v@[i as int]@));
        i = i + 1;
    }
    assert(strs(*v).take(i as int) =~= strs(*v));
    out
}

impl Buffer {
    /// The text a write of the lines of an address saves: by default the
    /// whole text. Lines keep their own line endings.
    pub fn get_lines_for_save(&mut self, address: &Address) -> (r: Result<String, EdError>)
        requires
            address@ is Absent || old(self).resolves(address@),
        ensures
            final(self).same_but_re(old(self)),
            final(self).re() == save_range(old(self)@, address@).1,
            result_kind(match r { Ok(s) => Ok(s@), Err(e) => Err(e) }) == saved_text(old(self)@, address@),
    {
        let address = if address.is_none() {
            if self.lines.len() == 0 {
                return Ok(String::new());
            }
            (1, self.lines.len())
        } else {
            match self.parse_address(address) {
                Some(Ok(a)) => a,
                Some(Err(e)) => {
                    return Err(e);
                },
                None => {
                    return Err(EdError::UnexpectedState);
                },
            }
        };
        if address.0 == 0 || address.1 == 0 {
            return Err(EdError::InvalidRange);
        }
        let from = address.0 - 1;
        let to = address.1 - 1;
        if !(from <= to + 1 && to + 1 <= self.lines.len()) {
            return Err(EdError::InvalidRange);
        }
        let ghost picked = self.text().subrange(from as int, to + 1);
        let mut f = String::new();
        let mut i = from;
        while i <= to
            invariant
                from <= i <= to + 1,
                to < usize::MAX,
                to + 1 <= self.lines@.len(),
                picked == self.text().subrange(from as int, to + 1),
                f@ == concat(picked.take(i - from)),
            decreases to + 1 - i,
        {
            let ghost before = f@;
            f.append(self.lines[i].as_str());
            assert(picked.take(i + 1 - from).drop_last() =~= picked.take(i - from));
            assert(picked.take(i + 1 - from).last() == self.lines@[i as int]@);
            i = i + 1;
        }
        assert(picked.take(i - from) =~= picked);
        Ok(f)
    }

    /// A copy of the lines, the current line and the range.
    pub fn save_snapshot(&self) -> (r: Snapshot)
        ensures
            r.text() == self.text(),
            r.current() == self.current(),
            r.range() == self.range(),
    {
        Snapshot::new(copy_lines(&self.lines), self.last_affected_line, self.line_range)
    }

    /// Puts back the lines, the current line and the range of a snapshot.
    pub fn restore_snapshot(&mut self, snapshot: Snapshot)
        ensures
            final(self).text() == snapshot.text(),
            final(self).current() == snapshot.current(),
            final(self).range() == snapshot.range(),
            final(self).keeps_memory(old(self)),
    {
        self.lines = snapshot.lines;
        self.line_range = snapshot.line_range;
        self.last_affected_line = snapshot.last_affected_line;
    }
}

/// What a command leaves of the buffer: its result, the text, the current
/// line, the range and the remembered regular expression.
pub struct Outcome {
    pub res: Result<(), ErrKind>,
    pub text: Seq<Seq<char>>,
    pub cur: usize,
    pub range: (usize, usize),
    pub re: Option<Seq<char>>,
}

/// The outcome of moving the range after line `dest` (already resolved,
/// with `re` remembered); `None` where the move is undefined: an empty
/// range, or a destination past the end of the text.
pub open spec fn moved(b: BufferV, dest: usize, re: Option<Seq<char>>) -> Option<Outcome> {
    let text = b.text;
    let (r0, r1) = b.range;
    let unchanged = |k: ErrKind|
        Outcome { res: Err(k), text, cur: b.cur, range: b.range, re };
    if r0 <= dest <= r1 {
        Some(unchanged(ErrKind::InvalidRange))
    } else if !span_ok(text.len(), b.range) {
        Some(unchanged(ErrKind::InvalidRange))
    } else if r0 == r1 + 1 {
        None
    } else {
        let k = r1 - r0 + 1;
        let rest = without(text, b.range);
        let block = text.subrange(r0 - 1, r1 as int);
        if dest > r1 {
            if dest > text.len() {
                None
            } else {
                Some(
                    Outcome {
                        res: Ok(()),
                        text: inserted(rest, dest - k, block),
                        cur: dest,
                        range: ((dest - k) as usize, dest),
                        re,
                    },
                )
            }
        } else {
            Some(
                Outcome {
                    res: Ok(()),
                    text: inserted(rest, dest as int, block),
                    cur: (dest + k) as usize,
                    range: (dest, (dest + (r1 - r0)) as usize),
                    re,
                },
            )
        }
    }
}

/// The outcome of `move_to`; `None` where it is undefined.
pub open spec fn move_spec(b: BufferV, a: AddressV) -> Option<Outcome> {
    let (r, re) = b.resolved(a);
    match r {
        None => None,
        Some(Err(k)) => Some(
            Outcome { res: Err(k), text: b.text, cur: b.cur, range: b.range, re },
        ),
        Some(Ok((_, dest))) => moved(b, dest, re),
    }
}

/// The outcome of `transfer`; `None` where resolving the destination
/// overflows.
pub open spec fn transfer_spec(b: BufferV, a: AddressV) -> Option<Outcome> {
    let text = b.text;
    let (r0, r1) = b.range;
    let (r, re1) = b.resolved(a);
    match r {
        None => None,
        Some(Err(k)) => Some(
            Outcome { res: Err(k), text, cur: b.cur, range: b.range, re: re1 },
        ),
        Some(Ok((_, dest))) => if r0 <= dest <= r1 || !span_ok(text.len(), b.range) {
            Some(
                Outcome {
                    res: Err(ErrKind::InvalidRange),
                    text,
                    cur: b.cur,
                    range: b.range,
                    re: re1,
                },
            )
        } else {
            let (r2, re2) = resolve_address(text, r1, re1, a);
            match r2 {
                None => None,
                Some(Err(k)) => Some(
                    Outcome { res: Err(k), text, cur: r1, range: b.range, re: re2 },
                ),
                Some(Ok((x, y))) => if max(x, y) > text.len() {
                    Some(
                        Outcome {
                            res: Err(ErrKind::InvalidAddress),
                            text,
                            cur: r1,
                            range: b.range,
                            re: re2,
                        },
                    )
                } else {
                    let block = text.subrange(r0 - 1, r1 as int);
                    Some(
                        Outcome {
                            res: Ok(()),
                            text: inserted(text, y as int, block),
                            cur: (y + block.len()) as usize,
                            range: (x, y),
                            re: re2,
                        },
                    )
                },
            }
        },
    }
}

/// The range `join` works on: by default the current line and the next.
pub open spec fn join_range(b: BufferV, a: AddressV) -> (Option<Result<(usize, usize), ErrKind>>, Option<Seq<char>>) {
    if a is Absent {
        (
            Some(Ok((b.cur, if b.cur < usize::MAX {
                (b.cur + 1) as usize
            } else {
                b.cur
            }))),
            b.re,
        )
    } else {
        b.resolved(a)
    }
}

/// The text with lines `from + 1 ..= to` (0-based) appended to line `from`,
/// each without its trailing newlines.
pub open spec fn joined(text: Seq<Seq<char>>, from: int, to: int) -> Seq<Seq<char>> {
    text.take(from) + seq![
        text[from] + concat(text.subrange(from + 1, to + 1).map_values(|l: Seq<char>| trim_newlines(l))),
    ] + text.skip(to + 1)
}

/// The outcome of `join`; `None` where it is undefined: an empty range, or
/// an address whose arithmetic overflows.
pub open spec fn join_spec(b: BufferV, a: AddressV) -> Option<Outcome> {
    let text = b.text;
    let (r, re) = join_range(b, a);
    match r {
        None => None,
        Some(Err(k)) => Some(
            Outcome { res: Err(k), text, cur: b.cur, range: b.range, re },
        ),
        Some(Ok((r0, r1))) => {
            let fail = Outcome {
                res: Err(ErrKind::InvalidRange),
                text,
                cur: b.cur,
                range: (r0, r1),
                re,
            };
            if r0 == 0 || r1 == 0 {
                Some(fail)
            } else if r0 == r1 {
                Some(Outcome { res: Ok(()), text, cur: b.cur, range: (r0, r1), re })
            } else if !span_ok(text.len(), (r0, r1)) {
                Some(fail)
            } else if r0 == r1 + 1 {
                None
            } else {
                Some(
                    Outcome {
                        res: Ok(()),
                        text: joined(text, r0 - 1, r1 - 1),
                        cur: b.cur,
                        range: (r0, r1),
                        re,
                    },
                )
            }
        },
    }
}

impl Buffer {
    /// The buffer is as an outcome describes, the rest as in `other`.
    pub open spec fn reached(&self, other: &Buffer, r: Result<(), EdError>, o: Outcome) -> bool {
        &&& result_kind(r) == o.res
        &&& self.text() == o.text
        &&& self.current() == o.cur
        &&& self.range() == o.range
        &&& self.re() == o.re
        &&& self.flag() == other.flag()
        &&& self.subs() == other.subs()
        &&& self.suffix() == other.suffix()
        &&& self.anchor() == other.anchor()
    }

    /// Appends lines after the current line, one after another.
    pub fn append_all(&mut self, block: &Vec<String>)
        requires
            old(self).current() <= old(self).text().len(),
        ensures
            final(self).text() == inserted(old(self).text(), old(self).current() as int, strs(*block)),
            final(self).current() == old(self).current() + block@.len(),
            final(self).range() == old(self).range(),
            final(self).keeps_memory(old(self)),
    {
        let ghost t0 = self.text();
        let ghost c0 = self.current() as int;
        let mut j: usize = 0;
        while j < block.len()
            invariant
                j <= block@.len(),
                0 <= c0 <= t0.len(),
                self.text() == t0.take(c0) + strs(*block).take(j as int) + t0.skip(c0),
                self.current() == c0 + j,
                self.current() <= self.text().len(),
                self.range() == old(self).range(),
                self.keeps_memory(old(self)),
            decreases block@.len() - j,
        {
            self.append(block[j].as_str());
            assert(strs(*block).take(j + 1) =~= strs(*block).take(j as int).push(block@[j as int]@));
            assert(self.text() =~= t0.take(c0) + strs(*block).take(j + 1) + t0.skip(c0));
            j = j + 1;
        }
        assert(strs(*block).take(j as int) =~= strs(*block));
    }

    /// Moves the lines of the range after the line an address names.
    pub fn move_to(&mut self, address: &Address) -> (r: Result<(), EdError>)
        requires
            move_spec(old(self)@, address@) is Some,
        ensures
            final(self).reached(old(self), r, move_spec(old(self)@, address@)->0),
    {
        let (from, to) = self.line_range;
        let destination = match self.parse_address(address) {
            Some(Ok(a)) => a.1,
            Some(Err(e)) => {
                return Err(e);
            },
            None => {
                return Err(EdError::UnexpectedState);
            },
        };
        if destination >= from && destination <= to {
            return Err(EdError::InvalidRange);
        }
        let yanked = match self.delete() {
            Ok(y) => y,
            Err(e) => {
                return Err(e);
            },
        };
        let count = to - from + 1;
        self.line_range = if destination > to {
            (destination - count, destination)
        } else {
            (destination, destination + (to - from))
        };
        self.last_affected_line = self.line_range.0;
        self.append_all(&yanked);
        Ok(())
    }

    /// Copies the lines of the range after the line an address names.
    pub fn transfer(&mut self, address: &Address) -> (r: Result<(), EdError>)
        requires
            transfer_spec(old(self)@, address@) is Some,
        ensures
            final(self).reached(old(self), r, transfer_spec(old(self)@, address@)->0),
    {
        let (from, to) = self.line_range;
        let destination = match self.parse_address(address) {
            Some(Ok(a)) => a.1,
            Some(Err(e)) => {
                return Err(e);
            },
            None => {
                return Err(EdError::UnexpectedState);
            },
        };
        if destination >= from && destination <= to {
            return Err(EdError::InvalidRange);
        }
        let yanked: Vec<String> = match self.get_lines() {
            Ok(v) => v.into_lines(),
            Err(e) => {
                return Err(e);
            },
        };
        match self.set_mode(address) {
            Ok(()) => {},
            Err(e) => {
                return Err(e);
            },
        }
        self.append_all(&yanked);
        Ok(())
    }

    /// Joins the lines of an address (by default the current line and the
    /// next) into the first of them. The range becomes the address's lines;
    /// the current line stays as it was.
    pub fn join(&mut self, address: &Address) -> (r: Result<(), EdError>)
        requires
            join_spec(old(self)@, address@) is Some,
        ensures
            final(self).reached(old(self), r, join_spec(old(self)@, address@)->0),
    {
        let range = if address.is_none() {
            (self.last_affected_line, self.last_affected_line.saturating_add(1))
        } else {
            match self.parse_address(address) {
                Some(Ok(a)) => a,
                Some(Err(e)) => {
                    return Err(e);
                },
                None => {
                    return Err(EdError::UnexpectedState);
                },
            }
        };
        self.line_range = range;
        if range.0 == 0 || range.1 == 0 {
            return Err(EdError::InvalidRange);
        }
        let from = range.0 - 1;
        let to = range.1 - 1;
        if from == to {
            return Ok(());
        }
        if !(from <= to + 1 && to + 1 <= self.lines.len()) {
            return Err(EdError::InvalidRange);
        }
        let ghost t = self.text();
        let mut tail = self.lines.split_off(to + 1);
        let drained = self.lines.split_off(from + 1);
        self.lines.append(&mut tail);
        assert(strs(drained) =~= t.subrange(from + 1, to + 1));
        let ghost pieces = t.subrange(from + 1, to + 1).map_values(|l: Seq<char>| trim_newlines(l));
        let mut first = self.lines[from].clone();
        let mut j: usize = 0;
        while j < drained.len()
            invariant
                j <= drained@.len(),
                strs(drained) == t.subrange(from + 1, to + 1),
                pieces == t.subrange(from + 1, to + 1).map_values(|l: Seq<char>| trim_newlines(l)),
                first@ == t[from as int] + concat(pieces.take(j as int)),
            decreases drained@.len() - j,
        {
            let piece = trim_newlines_chars(chars_of(drained[j].as_str()).as_slice());
            let text = string_from_chars(piece.as_slice());
            first.append(text.as_str());
            assert(pieces.take(j + 1).drop_last() =~= pieces.take(j as int));
            j = j + 1;
        }
        assert(pieces.take(j as int) =~= pieces);
        let ghost mid = strs(self.lines);
        self.lines.remove(from);
        self.lines.insert(from, first);
        assert(strs(self.lines) =~= joined(t, from as int, to as int));
        Ok(())
    }
}

/// A kind kept only if it is one of the print commands.
pub open spec fn print_only(k: Option<KindV>) -> Option<KindV> {
    match k {
        Some(k) => if k is List || k is NumberedList || k is PrintList {
            Some(k)
        } else {
            None
        },
        None => None,
    }
}

impl Buffer {
    /// Whether `move_to` returns on the address (see `move_spec`).
    pub fn move_returns(&self, address: &Address) -> (r: bool)
        ensures
            r == (move_spec(self@, address@) is Some),
    {
        let mut probe = self.probe_copy();
        let (r0, r1) = self.line_range;
        let dest = match probe.parse_address(address) {
            None => {
                return false;
            },
            Some(Err(_)) => {
                return true;
            },
            Some(Ok(a)) => a.1,
        };
        if r0 <= dest && dest <= r1 {
            return true;
        }
        let len = self.lines.len();
        if !(1 <= r0 && 1 <= r1 && r0 - 1 <= r1 && r1 <= len) {
            return true;
        }
        if r0 > r1 {
            return false;
        }
        !(dest > r1 && dest > len)
    }

    /// Whether `transfer` returns on the address (see `transfer_spec`).
    pub fn transfer_returns(&self, address: &Address) -> (r: bool)
        ensures
            r == (transfer_spec(self@, address@) is Some),
    {
        let mut probe = self.probe_copy();
        let (r0, r1) = self.line_range;
        let dest = match probe.parse_address(address) {
            None => {
                return false;
            },
            Some(Err(_)) => {
                return true;
            },
            Some(Ok(a)) => a.1,
        };
        let len = self.lines.len();
        if (r0 <= dest && dest <= r1) || !(1 <= r0 && 1 <= r1 && r0 - 1 <= r1 && r1 <= len) {
            return true;
        }
        probe.last_affected_line = r1;
        probe.parse_address(address).is_some()
    }

    /// Whether `join` returns on the address (see `join_spec`).
    pub fn join_returns(&self, address: &Address) -> (r: bool)
        ensures
            r == (join_spec(self@, address@) is Some),
    {
        let (r0, r1) = if address.is_none() {
            (self.last_affected_line, self.last_affected_line.saturating_add(1))
        } else {
            let mut probe = self.probe_copy();
            match probe.parse_address(address) {
                None => {
                    return false;
                },
                Some(Err(_)) => {
                    return true;
                },
                Some(Ok(a)) => a,
            }
        };
        if r0 == 0 || r1 == 0 || r0 == r1 {
            return true;
        }
        let len = self.lines.len();
        if !(1 <= r0 && 1 <= r1 && r0 - 1 <= r1 && r1 <= len) {
            return true;
        }
        r0 <= r1
    }
}

/// The kind of a print suffix, copied.
pub fn copy_print_kind(k: &CommandKind) -> (r: Option<CommandKind>)
    ensures
        (k@ is List || k@ is NumberedList || k@ is PrintList) ==> r is Some && r->0@ == k@,
        !(k@ is List || k@ is NumberedList || k@ is PrintList) ==> r is None,
{
    match k {
        CommandKind::List => Some(CommandKind::List),
        CommandKind::NumberedList => Some(CommandKind::NumberedList),
        CommandKind::PrintList => Some(CommandKind::PrintList),
        _ => None,
    }
}

impl Buffer {
    /// The remembered regular expression.
    pub fn last_re(&self) -> (r: Option<String>)
        ensures
            opt_str(r) == self.re(),
    {
        match &self.last_re {
            Some(s) => Some(s.clone()),
            None => None,
        }
    }

    pub fn set_last_re(&mut self, re: Option<String>)
        ensures
            final(self)@ == (BufferV { re: opt_str(re), ..old(self)@ }),
    {
        self.last_re = re;
    }

    /// The remembered substitution flag.
    pub fn last_flag(&self) -> (r: Option<String>)
        ensures
            opt_str(r) == self.flag(),
    {
        match &self.last_flag {
            Some(s) => Some(s.clone()),
            None => None,
        }
    }

    pub fn set_last_flag(&mut self, flag: Option<String>)
        ensures
            final(self)@ == (BufferV { flag: opt_str(flag), ..old(self)@ }),
    {
        self.last_flag = flag;
    }

    /// Takes the remembered replacement out.
    pub fn take_last_sub(&mut self) -> (r: Option<Vec<String>>)
        ensures
            opt_strs(r) == old(self).subs(),
            final(self)@ == (BufferV { subs: None, ..old(self)@ }),
    {
        let r = self.last_sub.take();
        r
    }

    pub fn set_last_sub(&mut self, sub: Option<Vec<String>>)
        ensures
            final(self)@ == (BufferV { subs: opt_strs(sub), ..old(self)@ }),
    {
        self.last_sub = sub;
    }

    /// The remembered print suffix of substitutions, where it is one of the
    /// print commands.
    pub fn last_suffix(&self) -> (r: Option<CommandKind>)
        ensures
            opt_kind(r) == print_only(self.suffix()),
    {
        match &self.last_suffix {
            Some(k) => copy_print_kind(k),
            None => None,
        }
    }

    pub fn set_last_suffix(&mut self, suffix: Option<CommandKind>)
        ensures
            final(self)@ == (BufferV { suffix: opt_kind(suffix), ..old(self)@ }),
    {
        self.last_suffix = suffix;
    }

    /// Whether a print suffix is remembered.
    pub fn has_last_suffix(&self) -> (r: bool)
        ensures
            r == self.suffix() is Some,
    {
        self.last_suffix.is_some()
    }
}

impl<'a> BufferView<'a> {
    /// Number of lines shown.
    pub fn count(&self) -> (r: usize)
        ensures
            r == self.shown().len(),
    {
        self.lines.len()
    }

    /// Line `i` of those shown.
    pub fn line(&self, i: usize) -> (r: &String)
        requires
            i < self.shown().len(),
        ensures
            r@ == self.shown()[i as int],
    {
        &self.lines[i]
    }

    /// The number of the first line shown.
    pub fn first_number(&self) -> (r: usize)
        ensures
            r == self.start(),
    {
        self.range_start
    }
}

} // verus!
