//! The position-tracking cursor over source text.
//!
//! A [`State`] is an immutable view into a source string: the text that
//! remains, the number of characters already consumed, and the 1-based line
//! and column of the next character.  Advancing never mutates a cursor; it
//! returns a fresh one, so backtracking amounts to keeping the old value.

use vstd::prelude::*;

verus! {

use vstd::string::StrSliceExecFns;

pub type IResult<I, O> = Result<(I, O), ParseError<I>>;

#[derive(Debug, PartialEq)]
pub struct ParseError<I> {
    pub input: I,
    pub reason: Reason,
}

/// The three failure severities of the cursor track.  `Return` marks a
/// recoverable mismatch at the same position; `Exit` aborts the whole
/// parse; `Eof` says the input was exhausted, which a choice combinator
/// may still retry past until all its alternatives have been tried.
#[derive(Debug, PartialEq)]
pub enum Reason {
    Return(String),
    Exit(String),
    Eof,
}

impl<I> ParseError<I> {
    pub fn make_return<O>(input: I, reason: String) -> (r: IResult<I, O>)
        ensures
            (r matches Err(e) && e == (ParseError { input, reason: Reason::Return(reason) })),
    {
        Err(ParseError { input, reason: Reason::Return(reason) })
    }

    pub fn make_exit<O>(input: I, reason: String) -> (r: IResult<I, O>)
        ensures
            (r matches Err(e) && e == (ParseError { input, reason: Reason::Exit(reason) })),
    {
        Err(ParseError { input, reason: Reason::Exit(reason) })
    }

    pub fn make_eof<O>(input: I) -> (r: IResult<I, O>)
        ensures
            (r matches Err(e) && e == (ParseError { input, reason: Reason::Eof })),
    {
        Err(ParseError { input, reason: Reason::Eof })
    }
}

/// Line number after consuming the characters of `s`, starting from `line`:
/// each newline character adds one.
pub open spec fn line_after(line: int, s: Seq<char>) -> int
    decreases s.len(),
{
    if s.len() == 0 {
        line
    } else {
        line_after(line, s.drop_last()) + if s.last() == '\n' {
            1int
        } else {
            0int
        }
    }
}

/// Column after consuming the characters of `s`, starting from `col`:
/// a newline resets the column to 1, a carriage return leaves it unchanged,
/// and every other character moves it one to the right.
pub open spec fn col_after(col: int, s: Seq<char>) -> int
    decreases s.len(),
{
    if s.len() == 0 {
        col
    } else if s.last() == '\n' {
        1
    } else if s.last() == '\r' {
        col_after(col, s.drop_last())
    } else {
        col_after(col, s.drop_last()) + 1
    }
}

/// An immutable parsing cursor: `input` is exactly the suffix of `source`
/// that starts at character `position`, and `line`/`column` are the 1-based
/// location of that character in `source`.
#[derive(Debug, PartialEq, Clone, Copy)]
pub struct State<'a> {
    pub source: &'a str,
    pub input: &'a str,
    pub position: usize,
    pub line: usize,
    pub column: usize,
}

impl<'a> State<'a> {
    /// The cursor invariant.  The bound on the source length is a machine
    /// limit: a `&str` of `usize::MAX` bytes cannot exist, and each
    /// character takes at least one byte.
    pub open spec fn wf(self) -> bool {
        &&& self.position <= self.source@.len()
        &&& self.source@.len() < usize::MAX
        &&& self.input@ == self.source@.subrange(self.position as int, self.source@.len() as int)
        &&& self.line == line_after(1, self.source@.subrange(0, self.position as int))
        &&& self.column == col_after(1, self.source@.subrange(0, self.position as int))
    }

    /// How a cursor advanced by `n` characters relates to the cursor it
    /// came from.
    pub open spec fn advances_to(self, n: int, r: State<'a>) -> bool {
        &&& r.source@ == self.source@
        &&& r.position == self.position + n
        &&& r.input@ == self.input@.subrange(n, self.input@.len() as int)
        &&& r.line == line_after(self.line as int, self.input@.subrange(0, n))
        &&& r.column == col_after(self.column as int, self.input@.subrange(0, n))
    }

    pub fn from_str(source: &'a str) -> (r: Self)
        requires
            source@.len() < usize::MAX,
        ensures
            r.wf(),
            r.source@ == source@,
            r.input@ == source@,
            r.position == 0,
            r.line == 1,
            r.column == 1,
    {
        proof {
            assert(source@.subrange(0, source@.len() as int) =~= source@);
            assert(source@.subrange(0, 0) =~= Seq::<char>::empty());
        }
        Self { source, input: source, position: 0, line: 1, column: 1 }
    }

    pub fn from_str_n(source: &'a str, n: usize) -> (r: Self)
        requires
            source@.len() < usize::MAX,
            n <= source@.len(),
        ensures
            r.wf(),
            r.source@ == source@,
            r.position == n,
            r.input@ == source@.subrange(n as int, source@.len() as int),
    {
        let state = Self::from_str(source);
        state.advance(n)
    }

    /// Advance the parsing cursor by `n` characters, tracking lines and
    /// columns across the consumed text.
    pub fn advance(&self, n: usize) -> (r: Self)
        requires
            self.wf(),
            n <= self.input@.len(),
        ensures
            r.wf(),
            self.advances_to(n as int, r),
    {
        let mut line = self.line;
        let mut column = self.column;

        let ghost consumed = self.source@.subrange(0, self.position as int);
        proof {
            lemma_line_after_bounds(1, consumed);
            lemma_col_after_bounds(1, consumed);
        }

        let mut j: usize = 0;
        while j < n
            invariant
                self.wf(),
                n <= self.input@.len(),
                j <= n,
                line == line_after(self.line as int, self.input@.subrange(0, j as int)),
                column == col_after(self.column as int, self.input@.subrange(0, j as int)),
                line <= 1 + self.position + j,
                1 <= column <= 1 + self.position + j,
            decreases n - j,
        {
            let chr = self.input.get_char(j);
            proof {
                assert(self.input@.subrange(0, j + 1).drop_last() =~= self.input@.subrange(
                    0,
                    j as int,
                ));
                assert(self.input@.subrange(0, j + 1).last() == chr);
            }
            if chr == '\n' {
                line = line + 1;
                column = 1;
            } else if chr == '\r' {
                // Carriage returns are consumed without moving the location.
            } else {
                column = column + 1;
            }
            j = j + 1;
        }

        let len = self.input.unicode_len();
        let rest = self.input.substring_char(n, len);
        let r = Self { source: self.source, input: rest, position: self.position + n, line, column };
        proof {
            let taken = self.input@.subrange(0, n as int);
            assert(self.source@.subrange(0, self.position + n) =~= consumed + taken);
            lemma_line_after_concat(1, consumed, taken);
            lemma_col_after_concat(1, consumed, taken);
            assert(r.input@ =~= r.source@.subrange(r.position as int, r.source@.len() as int));
        }
        r
    }

    /// Advance the parsing cursor past everything that remains.
    pub fn advance_to_end(&self) -> (r: Self)
        requires
            self.wf(),
        ensures
            r.wf(),
            self.advances_to(self.input@.len() as int, r),
            r.input@.len() == 0,
    {
        let len = self.input.unicode_len();
        let r = self.advance(len);
        proof {
            assert(self.input@.subrange(len as int, self.input@.len() as int) =~= Seq::<
                char,
            >::empty());
        }
        r
    }
}

/// Advancing a cursor is additive: advancing by `a` and then by `b` lands
/// on the same position, line, column and remaining text as advancing by
/// `a + b` in one step.
pub proof fn lemma_advance_additive(s: State, t: State, u: State, v: State, a: nat, b: nat)
    requires
        a + b <= s.input@.len(),
        s.advances_to(a as int, t),
        t.advances_to(b as int, u),
        s.advances_to(a + b as int, v),
    ensures
        u.position == v.position,
        u.line == v.line,
        u.column == v.column,
        u.input@ == v.input@,
{
    let first = s.input@.subrange(0, a as int);
    let second = s.input@.subrange(a as int, a + b as int);
    assert(s.input@.subrange(0, a + b as int) =~= first + second);
    assert(t.input@.subrange(0, b as int) =~= second);
    lemma_line_after_concat(s.line as int, first, second);
    lemma_col_after_concat(s.column as int, first, second);
    assert(u.input@ =~= v.input@);
}

/// Text without a newline leaves the line number alone.
pub proof fn lemma_line_after_no_newline(line: int, s: Seq<char>)
    requires
        forall|j: int| 0 <= j < s.len() ==> s[j] != '\n',
    ensures
        line_after(line, s) == line,
    decreases s.len(),
{
    if s.len() > 0 {
        lemma_line_after_no_newline(line, s.drop_last());
    }
}

/// Advancing a fresh cursor across its first newline — at position `k`,
/// with no earlier newline, whatever carriage returns precede it — lands on
/// line 2, column 1.
pub proof fn lemma_first_newline_line_column(s: State, r: State, k: int)
    requires
        s.line == 1,
        0 <= k < s.input@.len(),
        s.input@[k] == '\n',
        forall|j: int| 0 <= j < k ==> s.input@[j] != '\n',
        s.advances_to(k + 1, r),
    ensures
        r.line == 2,
        r.column == 1,
{
    let consumed = s.input@.subrange(0, k + 1);
    assert(consumed.last() == '\n');
    assert(consumed.drop_last() =~= s.input@.subrange(0, k));
    lemma_line_after_no_newline(s.line as int, consumed.drop_last());
}

/// A well-formed cursor can never sit in the middle of a multi-byte
/// character: its byte offset is a character boundary of the UTF-8
/// encoding of the source, so the remaining input always reads as valid
/// encoded text of its own.
pub proof fn lemma_cursor_on_char_boundary(s: State)
    requires
        s.wf(),
    ensures
        vstd::utf8::is_char_boundary(
            vstd::utf8::encode_utf8(s.source@),
            crate::utils::byte_offset_of(s.source@, s.position as int),
        ),
{
    lemma_char_prefix_boundary(s.source@, s.position as int);
}

/// The byte offset after any leading character count of `cs` is a
/// character boundary of the UTF-8 encoding of `cs`.
pub proof fn lemma_char_prefix_boundary(cs: Seq<char>, i: int)
    requires
        0 <= i <= cs.len(),
    ensures
        vstd::utf8::is_char_boundary(
            vstd::utf8::encode_utf8(cs),
            vstd::utf8::encode_utf8(cs.subrange(0, i)).len() as int,
        ),
    decreases i,
{
    broadcast use vstd::utf8::encode_utf8_valid_utf8;

    let bytes = vstd::utf8::encode_utf8(cs);
    if i == 0 {
        assert(cs.subrange(0, 0) =~= Seq::<char>::empty());
    } else {
        vstd::utf8::encode_utf8_first_scalar(cs);
        assert(vstd::utf8::pop_first_scalar(bytes) =~= vstd::utf8::encode_utf8(cs.drop_first()));
        let head = vstd::utf8::encode_scalar(cs[0] as u32);
        let pre = cs.subrange(0, i);
        assert(pre.drop_first() =~= cs.drop_first().subrange(0, i - 1));
        assert(vstd::utf8::encode_utf8(pre) == head + vstd::utf8::encode_utf8(
            cs.drop_first().subrange(0, i - 1),
        ));
        lemma_char_prefix_boundary(cs.drop_first(), i - 1);
    }
}

/// Consuming text never decreases the line number, and `s` can add at most
/// one line per character.
pub proof fn lemma_line_after_bounds(line: int, s: Seq<char>)
    ensures
        line <= line_after(line, s) <= line + s.len(),
    decreases s.len(),
{
    if s.len() > 0 {
        lemma_line_after_bounds(line, s.drop_last());
    }
}

/// Columns stay at least 1 and can grow by at most one per character.
pub proof fn lemma_col_after_bounds(col: int, s: Seq<char>)
    requires
        col >= 1,
    ensures
        1 <= col_after(col, s) <= col + s.len(),
    decreases s.len(),
{
    if s.len() > 0 {
        lemma_col_after_bounds(col, s.drop_last());
    }
}

/// Line tracking distributes over concatenation: consuming `a + b` is
/// consuming `a`, then `b`.
pub proof fn lemma_line_after_concat(line: int, a: Seq<char>, b: Seq<char>)
    ensures
        line_after(line, a + b) == line_after(line_after(line, a), b),
    decreases b.len(),
{
    if b.len() == 0 {
        assert(a + b =~= a);
    } else {
        assert((a + b).drop_last() =~= a + b.drop_last());
        lemma_line_after_concat(line, a, b.drop_last());
    }
}

/// Column tracking distributes over concatenation the same way.
pub proof fn lemma_col_after_concat(col: int, a: Seq<char>, b: Seq<char>)
    ensures
        col_after(col, a + b) == col_after(col_after(col, a), b),
    decreases b.len(),
{
    if b.len() == 0 {
        assert(a + b =~= a);
    } else {
        assert((a + b).drop_last() =~= a + b.drop_last());
        lemma_col_after_concat(col, a, b.drop_last());
    }
}

} // verus!
