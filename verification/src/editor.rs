//! The first, simpler form of the buffer: addresses without offsets or
//! regular expressions, and a relative address that stays within the text.
use vstd::prelude::*;
use vstd::slice::slice_subrange;
use vstd::string::StringExecFns;
use crate::buffer::{span_ok, min, slice_strs};
use crate::state::{EdError, ErrKind, strs};
use crate::text::{push_decimal, decimal, string_from_chars, chars_of, trim_chars, trim, concat};

verus! {

/// A line address of this buffer.
#[derive(Debug, Clone, PartialEq, Eq, Structural)]
pub enum Line {
    Current,
    First,
    Last,
    Absolute(usize),
    Offset(isize),
}

/// An address of this buffer.
#[derive(Debug, Clone, PartialEq, Eq, Structural)]
pub enum Address {
    Absent,
    Single(Line),
    Range(Line, Line),
}

/// `usize::saturating_add_signed`.
pub open spec fn saturating_add(base: usize, n: isize) -> int {
    if base + n < 0 {
        0
    } else if base + n > usize::MAX {
        usize::MAX as int
    } else {
        base + n
    }
}

/// The line number a line address stands for.
pub open spec fn line_number(len: nat, cur: usize, l: Line) -> usize {
    match l {
        Line::Current => cur,
        Line::First => 1,
        Line::Last => len as usize,
        Line::Absolute(n) => n,
        Line::Offset(n) => min(saturating_add(cur, n), len as int) as usize,
    }
}

/// The pair of line numbers an address stands for.
pub open spec fn address_numbers(len: nat, cur: usize, a: Address) -> (usize, usize) {
    match a {
        Address::Absent => (cur, cur),
        Address::Single(l) => (line_number(len, cur, l), line_number(len, cur, l)),
        Address::Range(l1, l2) => (line_number(len, cur, l1), line_number(len, cur, l2)),
    }
}

pub struct Buffer {
    lines: Vec<String>,
    last_affected_line: usize,
    line_range: (usize, usize),
}

impl Buffer {
    pub closed spec fn text(&self) -> Seq<Seq<char>> {
        strs(self.lines)
    }

    pub closed spec fn current(&self) -> usize {
        self.last_affected_line
    }

    pub closed spec fn range(&self) -> (usize, usize) {
        self.line_range
    }

    pub fn new() -> (r: Self)
        ensures
            r.text() == Seq::<Seq<char>>::empty(),
            r.current() == 0,
            r.range() == (0usize, 0usize),
    {
        let lines: Vec<String> = Vec::new();
        assert(strs(lines) =~= Seq::<Seq<char>>::empty());
        Buffer { lines, last_affected_line: 0, line_range: (0, 0) }
    }

    /// Sets the range to an address and makes its last line current.
    pub fn set_mode(&mut self, address: &Address)
        ensures
            final(self).text() == old(self).text(),
            final(self).range() == address_numbers(
                old(self).text().len(),
                old(self).current(),
                *address,
            ),
            final(self).current() == final(self).range().1,
    {
        self.set_range(address);
        self.last_affected_line = self.line_range.1;
    }

    /// Sets the range to an address.
    pub fn set_range(&mut self, address: &Address)
        ensures
            final(self).text() == old(self).text(),
            final(self).current() == old(self).current(),
            final(self).range() == address_numbers(
                old(self).text().len(),
                old(self).current(),
                *address,
            ),
    {
        self.line_range = self.parse_address(address);
    }

    /// Inserts a line after the current line, which it becomes.
    pub fn append(&mut self, line: &str)
        requires
            old(self).current() <= old(self).text().len(),
        ensures
            final(self).text() == old(self).text().insert(old(self).current() as int, line@),
            final(self).current() == old(self).current() + 1,
            final(self).range() == old(self).range(),
    {
        let ghost before = strs(self.lines);
        self.lines.insert(self.last_affected_line, line.to_owned());
        assert(strs(self.lines) =~= before.insert(old(self).current() as int, line@));
        let count = self.lines.len();
        assert(self.last_affected_line < count);
        self.last_affected_line = self.last_affected_line + 1;
    }

    /// Removes the lines of the range; the line after them becomes current.
    pub fn delete(&mut self) -> (r: Result<(), EdError>)
        requires
            old(self).range().0 >= 1 && old(self).range().1 >= 1 && old(self).range().1
                <= old(self).text().len() ==> old(self).range().0 <= old(self).range().1 + 1,
        ensures
            final(self).range() == old(self).range(),
            if old(self).range().0 >= 1 && old(self).range().1 >= 1 && old(self).range().1
                <= old(self).text().len() {
                r is Ok && final(self).text() == old(self).text().take(old(self).range().0 - 1)
                    + old(self).text().skip(old(self).range().1 as int) && final(self).current()
                    == min(old(self).range().0 as int, final(self).text().len() as int)
            } else {
                r matches Err(e) && e@ == ErrKind::InvalidRange && final(self).text() == old(
                    self,
                ).text() && final(self).current() == old(self).current()
            },
    {
        let (r0, r1) = self.line_range;
        if r0 == 0 || r1 == 0 {
            return Err(EdError::InvalidRange);
        }
        let from = r0 - 1;
        let to = r1 - 1;
        if to >= self.lines.len() {
            return Err(EdError::InvalidRange);
        }
        let ghost t = strs(self.lines);
        let mut tail = self.lines.split_off(to + 1);
        let _removed = self.lines.split_off(from);
        self.lines.append(&mut tail);
        assert(strs(self.lines) =~= t.take(from as int) + t.skip(to + 1));
        let len = self.lines.len();
        self.last_affected_line = if from + 1 <= len {
            from + 1
        } else {
            len
        };
        Ok(())
    }

    fn parse_address(&self, address: &Address) -> (r: (usize, usize))
        ensures
            r == address_numbers(self.text().len(), self.current(), *address),
    {
        match address {
            Address::Absent => (self.last_affected_line, self.last_affected_line),
            Address::Single(line) => (self.parse_line(line), self.parse_line(line)),
            Address::Range(line, line1) => (self.parse_line(line), self.parse_line(line1)),
        }
    }

    fn parse_line(&self, line: &Line) -> (r: usize)
        ensures
            r == line_number(self.text().len(), self.current(), *line),
    {
        match line {
            Line::Current => self.last_affected_line,
            Line::First => 1,
            Line::Last => self.lines.len(),
            Line::Absolute(n) => *n,
            Line::Offset(n) => {
                let v: i128 = self.last_affected_line as i128 + *n as i128;
                let sat: usize = if v < 0 {
                    0
                } else if v > usize::MAX as i128 {
                    usize::MAX
                } else {
                    v as usize
                };
                let len = self.lines.len();
                if sat <= len {
                    sat
                } else {
                    len
                }
            },
        }
    }

    /// The lines of the range, whose last line becomes current.
    pub fn get_lines(&mut self) -> (r: Result<BufferView<'_>, EdError>)
        ensures
            final(self).text() == old(self).text(),
            final(self).range() == old(self).range(),
            if span_ok(old(self).text().len(), old(self).range()) {
                r matches Ok(v) && v.shown() == old(self).text().subrange(
                    old(self).range().0 - 1,
                    old(self).range().1 as int,
                ) && !v.is_well_defined() && !v.is_numbered() && v.start() == old(self).range().0
                    && final(self).current() == old(self).range().1
            } else {
                r matches Err(e) && e@ == ErrKind::InvalidRange && final(self).current() == old(
                    self,
                ).current()
            },
    {
        let (r0, r1) = self.line_range;
        if r0 == 0 || r1 == 0 {
            return Err(EdError::InvalidRange);
        }
        let from = r0 - 1;
        let to = r1 - 1;
        if !(from <= to + 1 && to + 1 <= self.lines.len()) {
            return Err(EdError::InvalidRange);
        }
        self.last_affected_line = r1;
        let lines = slice_subrange(self.lines.as_slice(), from, to + 1);
        assert(slice_strs(lines) =~= old(self).text().subrange(from as int, to + 1));
        Ok(BufferView::new(lines, r0))
    }

    /// The last line of the range, which becomes current.
    pub fn get_active_line(&mut self) -> (r: Result<BufferView<'_>, EdError>)
        requires
            old(self).range().1 >= 1,
        ensures
            final(self).text() == old(self).text(),
            final(self).range() == old(self).range(),
            if old(self).range().1 <= old(self).text().len() {
                r matches Ok(v) && v.shown() == seq![old(self).text()[old(self).range().1 - 1]]
                    && !v.is_well_defined() && !v.is_numbered() && v.start() == old(
                    self,
                ).text().len() && final(self).current() == old(self).range().1
            } else {
                r matches Err(e) && e@ == ErrKind::InvalidRange && final(self).current() == old(
                    self,
                ).current()
            },
    {
        let last = self.line_range.1;
        if last - 1 >= self.lines.len() {
            return Err(EdError::InvalidRange);
        }
        self.last_affected_line = last;
        let count = self.lines.len();
        let line = slice_subrange(self.lines.as_slice(), last - 1, last);
        assert(slice_strs(line) =~= seq![old(self).text()[last - 1]]);
        Ok(BufferView::new(line, count))
    }

    /// The text a write of the lines of an address saves: by default the
    /// whole text.
    pub fn get_lines_for_save(&self, address: &Address) -> (r: Result<String, EdError>)
        ensures
            ({
                let p = if *address == Address::Absent {
                    (1usize, self.text().len() as usize)
                } else {
                    address_numbers(self.text().len(), self.current(), *address)
                };
                if *address == Address::Absent && self.text().len() == 0 {
                    r matches Ok(s) && s@ == Seq::<char>::empty()
                } else if span_ok(self.text().len(), p) {
                    r matches Ok(s) && s@ == concat(self.text().subrange(p.0 - 1, p.1 as int))
                } else {
                    r matches Err(e) && e@ == ErrKind::InvalidRange
                }
            }),
    {
        let address = match address {
            Address::Absent => {
                if self.lines.len() == 0 {
                    return Ok(String::new());
                }
                (1, self.lines.len())
            },
            _ => self.parse_address(address),
        };
        if address.0 == 0 || address.1 == 0 {
            return Err(EdError::InvalidRange);
        }
        let from = address.0 - 1;
        let to = address.1 - 1;
        if !(from <= to + 1 && to + 1 <= self.lines.len()) {
            return Err(EdError::InvalidRange);
        }
        let ghost picked = self.text().subrange(from as int, to + 1);
        let mut f = String::new();
        let mut i = from;
        while i <= to
            invariant
                from <= i <= to + 1,
                to < usize::MAX,
                to + 1 <= self.lines@.len(),
                picked == self.text().subrange(from as int, to + 1),
                f@ == concat(picked.take(i - from)),
            decreases to + 1 - i,
        {
            f.append(self.lines[i].as_str());
            assert(picked.take(i + 1 - from).drop_last() =~= picked.take(i - from));
            assert(picked.take(i + 1 - from).last() == self.lines@[i as int]@);
            i = i + 1;
        }
        assert(picked.take(i - from) =~= picked);
        Ok(f)
    }

    /// A copy of the lines, the current line and the range.
    pub fn save_snapshot(&self) -> (r: Snapshot)
        ensures
            r.text() == self.text(),
            r.current() == self.current(),
            r.range() == self.range(),
    {
        let mut lines: Vec<String> = Vec::new();
        let mut i: usize = 0;
        while i < self.lines.len()
            invariant
                i <= self.lines@.len(),
                strs(lines) == strs(self.lines).take(i as int),
            decreases self.lines@.len() - i,
        {
            let ghost before = strs(lines);
            let c = self.lines[i].clone();
            lines.push(c);
            assert(strs(lines) =~= before.push(c@));
            assert(strs(self.lines).take(i + 1) =~= strs(self.lines).take(i as int).push(
                self.lines@[i as int]@,
            ));
            i = i + 1;
        }
        assert(strs(self.lines).take(i as int) =~= strs(self.lines));
        Snapshot::new(lines, self.last_affected_line, self.line_range)
    }

    /// Puts back the lines, the current line and the range of a snapshot.
    pub fn restore_snapshot(&mut self, snapshot: Snapshot)
        ensures
            final(self).text() == snapshot.text(),
            final(self).current() == snapshot.current(),
            final(self).range() == snapshot.range(),
    {
        self.lines = snapshot.lines;
        self.line_range = snapshot.line_range;
        self.last_affected_line = snapshot.last_affected_line;
    }
}

/// One shown line: its number and a tab if numbered, the line without
/// surrounding whitespace, and `$` if well defined, then a newline.
pub open spec fn shown_line(line: Seq<char>, well_defined: bool, numbered: bool, n: nat) -> Seq<
    char,
> {
    (if numbered {
        decimal(n) + seq!['\t']
    } else {
        Seq::empty()
    }) + trim(line) + (if well_defined {
        seq!['$', '\n']
    } else {
        seq!['\n']
    })
}

pub open spec fn render_from(
    lines: Seq<Seq<char>>,
    well_defined: bool,
    numbered: bool,
    start: nat,
    i: int,
) -> Seq<char>
    decreases lines.len() - i,
{
    if i < 0 || i >= lines.len() {
        Seq::empty()
    } else {
        shown_line(lines[i], well_defined, numbered, start + i as nat) + render_from(
            lines,
            well_defined,
            numbered,
            start,
            i + 1,
        )
    }
}

pub struct BufferView<'a> {
    lines: &'a [String],
    well_defined: bool,
    numbered: bool,
    range_start: usize,
}

impl<'a> BufferView<'a> {
    pub closed spec fn shown(&self) -> Seq<Seq<char>> {
        slice_strs(self.lines)
    }

    pub closed spec fn is_well_defined(&self) -> bool {
        self.well_defined
    }

    pub closed spec fn is_numbered(&self) -> bool {
        self.numbered
    }

    pub closed spec fn start(&self) -> usize {
        self.range_start
    }

    pub open spec fn rendered(&self) -> Seq<char> {
        render_from(self.shown(), self.is_well_defined(), self.is_numbered(), self.start() as nat, 0)
    }

    fn new(lines: &'a [String], range_start: usize) -> (r: Self)
        ensures
            r.shown() == slice_strs(lines),
            !r.is_well_defined(),
            !r.is_numbered(),
            r.start() == range_start,
    {
        BufferView { lines, well_defined: false, numbered: false, range_start }
    }

    pub fn well_defined(self) -> (r: Self)
        ensures
            r.shown() == self.shown(),
            r.is_well_defined(),
            r.is_numbered() == self.is_numbered(),
            r.start() == self.start(),
    {
        let mut v = self;
        v.well_defined = true;
        v
    }

    pub fn numbered(self) -> (r: Self)
        ensures
            r.shown() == self.shown(),
            r.is_well_defined() == self.is_well_defined(),
            r.is_numbered(),
            r.start() == self.start(),
    {
        let mut v = self;
        v.numbered = true;
        v
    }

    /// The text a print command writes for these lines.
    pub fn render(&self) -> (r: String)
        ensures
            r@ == self.rendered(),
    {
        let mut out: Vec<char> = Vec::new();
        let n = self.lines.len();
        let mut i: usize = 0;
        while i < n
            invariant
                i <= n,
                n == self.lines@.len(),
                out@ + render_from(
                    self.shown(),
                    self.well_defined,
                    self.numbered,
                    self.range_start as nat,
                    i as int,
                ) == self.rendered(),
            decreases n - i,
        {
            let ghost before = out@;
            let line = chars_of(self.lines[i].as_str());
            let ghost l = self.shown()[i as int];
            assert(line@ == l);
            if self.numbered {
                push_decimal(self.range_start as u128 + i as u128, &mut out);
                out.push('\t');
            }
            let ghost mid = out@;
            let t = trim_chars(line.as_slice());
            let mut k: usize = 0;
            while k < t.len()
                invariant
                    k <= t@.len(),
                    out@ == mid + t@.take(k as int),
                decreases t@.len() - k,
            {
                out.push(t[k]);
                k = k + 1;
                assert(out@ =~= mid + t@.take(k as int));
            }
            if self.well_defined {
                out.push('$');
            }
            out.push('\n');
            assert(out@ =~= before + shown_line(
                l,
                self.well_defined,
                self.numbered,
                self.range_start as nat + i as nat,
            ));
            i = i + 1;
        }
        assert(out@ =~= self.rendered());
        string_from_chars(out.as_slice())
    }
}

pub struct Snapshot {
    lines: Vec<String>,
    last_affected_line: usize,
    line_range: (usize, usize),
}

impl Snapshot {
    pub closed spec fn text(&self) -> Seq<Seq<char>> {
        strs(self.lines)
    }

    pub closed spec fn current(&self) -> usize {
        self.last_affected_line
    }

    pub closed spec fn range(&self) -> (usize, usize) {
        self.line_range
    }

    fn new(lines: Vec<String>, last_affected_line: usize, line_range: (usize, usize)) -> (r: Self)
        ensures
            r.text() == strs(lines),
            r.current() == last_affected_line,
            r.range() == line_range,
    {
        Snapshot { lines, last_affected_line, line_range }
    }
}

} // verus!
