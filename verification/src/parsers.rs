//! The primitive combinators: single-item match, fixed-length take, and
//! predicate-driven prefix match.
//!
//! All three are pure functions of `(configuration, input)`.  They share one
//! failure policy: exhausted input is always reported as `Eof`, so that a
//! caller can distinguish "ran out of text" from "the text did not match".

use vstd::prelude::*;

verus! {

use crate::errors::ParseError;
use crate::errors::ParseErrors;
use crate::errors::PResult;
use crate::errors::Reason;
use crate::internals::State;
use crate::traits::Input;
use vstd::string::StrSliceExecFns;
use vstd::string::StringExecFns;

/// The character for the decimal digit `d`.
pub open spec fn dec_digit(d: int) -> char {
    ((0x30 + d) as u32) as char
}

/// The decimal rendering of `n`: most significant digit first, a single
/// `'0'` for zero, never a leading zero otherwise.
pub open spec fn dec_rep(n: nat) -> Seq<char>
    decreases n,
{
    if n < 10 {
        seq![dec_digit(n as int)]
    } else {
        dec_rep(n / 10) + seq![dec_digit((n % 10) as int)]
    }
}

/// The text for a single decimal digit.
fn digit_str(d: usize) -> (r: &'static str)
    requires
        d < 10,
    ensures
        r@ == seq![dec_digit(d as int)],
{
    let r = match d {
        0 => "0",
        1 => "1",
        2 => "2",
        3 => "3",
        4 => "4",
        5 => "5",
        6 => "6",
        7 => "7",
        8 => "8",
        _ => "9",
    };
    proof {
        reveal_strlit("0");
        reveal_strlit("1");
        reveal_strlit("2");
        reveal_strlit("3");
        reveal_strlit("4");
        reveal_strlit("5");
        reveal_strlit("6");
        reveal_strlit("7");
        reveal_strlit("8");
        reveal_strlit("9");
        vstd::utf8::char_u32_cast(r@[0], r@[0] as u32);
        assert(r@ =~= seq![dec_digit(d as int)]);
    }
    r
}

/// Render `n` in decimal, mirroring `dec_rep` digit by digit.
fn usize_to_decimal(n: usize) -> (r: String)
    ensures
        r@ == dec_rep(n as nat),
    decreases n,
{
    if n < 10 {
        String::from_str(digit_str(n))
    } else {
        let mut r = usize_to_decimal(n / 10);
        r.append(digit_str(n % 10));
        r
    }
}

/// The message reported when at least `n` items were wanted.
fn fmt_expected_at_least(n: usize) -> (r: String)
    ensures
        r@ == "expected at least "@ + dec_rep(n as nat) + " chars"@,
{
    let mut r = String::from_str("expected at least ");
    let num = usize_to_decimal(n);
    r.append(num.as_str());
    r.append(" chars");
    r
}

/// The single `Eof` failure record at `input`.
pub open spec fn is_eof_err<I>(es: ParseErrors<I, String>, input: I) -> bool {
    &&& es@.len() == 1
    &&& es@[0].reason == Reason::Eof
    &&& es@[0].input == input
    &&& es@[0].context is None
}

/// The single recoverable mismatch record at `input`, whose description
/// reads `msg`.
pub open spec fn is_error_err<I>(es: ParseErrors<I, String>, input: I, msg: Seq<char>) -> bool {
    &&& es@.len() == 1
    &&& es@[0].reason == Reason::Error
    &&& es@[0].input == input
    &&& (es@[0].context matches Some(m) && m@ == msg)
}

/// Parse the specific item `expected`.  `Eof` for empty input, `Error` for
/// an item mismatch.
pub fn item<I: Input>(expected: I::Item, input: I) -> (r: PResult<I::Item, I, String>)
    ensures
        input.contents().len() == 0 <==> (r matches Err(e) && is_eof_err(e, input)),
        input.contents().len() > 0 && input.contents()[0] != expected <==> (r matches Err(e)
            && is_error_err(e, input, I::expected_item_msg(expected))),
        input.contents().len() > 0 && input.contents()[0] == expected <==> (r matches Ok((v, rest))
            && v == expected && rest.contents() == input.contents().subrange(
            1,
            input.contents().len() as int,
        )),
{
    let n = input.input_len();
    if n == 0 {
        ParseError::eof(input)
    } else {
        let actual = input.item_at(0);
        if !I::item_eq(&actual, &expected) {
            let msg = I::format_expected(&expected);
            ParseError::error(input, msg)
        } else {
            let rest = input.take_last(1);
            Ok((actual, rest))
        }
    }
}

/// Parse `n` items.  `Eof` for empty input, `Error` when fewer than `n`
/// items remain.
pub fn take<I: Input>(n: usize, input: I) -> (r: PResult<I, I, String>)
    ensures
        input.contents().len() == 0 <==> (r matches Err(e) && is_eof_err(e, input)),
        input.contents().len() > 0 && n > input.contents().len() <==> (r matches Err(e)
            && is_error_err(e, input, "expected at least "@ + dec_rep(n as nat) + " chars"@)),
        input.contents().len() > 0 && n <= input.contents().len() <==> (r matches Ok((prefix, rest))
            && prefix.contents() == input.contents().subrange(0, n as int) && rest.contents()
            == input.contents().subrange(n as int, input.contents().len() as int)),
{
    let len = input.input_len();
    if len == 0 {
        ParseError::eof(input)
    } else {
        match input.slice_index(n) {
            None => {
                let msg = fmt_expected_at_least(n);
                ParseError::error(input, msg)
            },
            Some(i) => {
                let (rest, prefix) = input.take_split(i);
                Ok((prefix, rest))
            },
        }
    }
}

/// Parse the longest non-empty prefix of items matched by `predicate`.
/// `Eof` for empty input, `Error` described by `fail_msg` when the very
/// first item does not match; a zero-length match is never a success.
pub fn take_while<I: Input, P: Fn(I::Item) -> bool>(
    predicate: P,
    fail_msg: &'static str,
    input: I,
) -> (r: PResult<I, I, String>)
    requires
        forall|j: int| 0 <= j < input.contents().len() ==> call_requires(
            predicate,
            (input.contents()[j],),
        ),
    ensures
        input.contents().len() == 0 <==> (r matches Err(e) && is_eof_err(e, input)),
        (r matches Err(e) ==> (is_eof_err(e, input) || is_error_err(e, input, fail_msg@))),
        (r matches Err(e) && is_error_err(e, input, fail_msg@)) ==> input.contents().len() > 0
            && call_ensures(predicate, (input.contents()[0],), false),
        input.contents().len() > 0 && (forall|b: bool|
            call_ensures(predicate, (input.contents()[0],), b) ==> !b) ==> (r matches Err(e)
            && is_error_err(e, input, fail_msg@)),
        input.contents().len() > 0 && (forall|b: bool|
            call_ensures(predicate, (input.contents()[0],), b) ==> b) ==> r is Ok,
        input.contents().len() > 0 && (forall|j: int, b: bool|
            0 <= j < input.contents().len() && call_ensures(predicate, (input.contents()[j],), b)
                ==> b) ==> (r matches Ok((prefix, rest)) && prefix.contents() == input.contents()
            && rest.contents().len() == 0),
        r matches Ok((prefix, rest)) ==> {
            &&& 1 <= prefix.contents().len() <= input.contents().len()
            &&& prefix.contents() == input.contents().subrange(0, prefix.contents().len() as int)
            &&& rest.contents() == input.contents().subrange(
                prefix.contents().len() as int,
                input.contents().len() as int,
            )
            &&& forall|j: int|
                0 <= j < prefix.contents().len() ==> call_ensures(
                    predicate,
                    (input.contents()[j],),
                    true,
                )
            &&& (prefix.contents().len() == input.contents().len() || call_ensures(
                predicate,
                (input.contents()[prefix.contents().len() as int],),
                false,
            ))
        },
{
    let len = input.input_len();
    if len == 0 {
        // No failing position can exist because the input was empty.
        return ParseError::eof(input);
    }
    let mut j: usize = 0;
    while j < len
        invariant
            j <= len,
            len == input.contents().len(),
            forall|t: int| 0 <= t < input.contents().len() ==> call_requires(
                predicate,
                (input.contents()[t],),
            ),
            forall|t: int| 0 <= t < j ==> call_ensures(predicate, (input.contents()[t],), true),
        decreases len - j,
    {
        let c = input.item_at(j);
        proof {
            assert(call_requires(predicate, (input.contents()[j as int],)));
        }
        if !predicate(c) {
            if j == 0 {
                // The input was non-empty and its very first item failed.
                return ParseError::error(input, fail_msg.to_string());
            }
            // The input was non-empty and exactly `j` leading items matched.
            proof {
                assert(call_ensures(predicate, (input.contents()[0],), true));
            }
            let (rest, prefix) = input.take_split(j);
            return Ok((prefix, rest));
        }
        j = j + 1;
    }
    // No failing position was found: all of the input matched.
    let rest = input.take_last(len);
    proof {
        assert(call_ensures(predicate, (input.contents()[0],), true));
        assert(input.contents().subrange(0, input.contents().len() as int) =~= input.contents());
    }
    Ok((input, rest))
}

/// The entry point: build a fresh cursor over `source` and apply `parser`
/// to it exactly once.  This is the only place initial state is
/// constructed; everything downstream receives state by value.  The length
/// bound is a machine limit: every character of a `&str` takes at least one
/// byte.
pub fn run<'a, O, F: FnOnce(State<'a>) -> crate::internals::IResult<State<'a>, O>>(
    parser: F,
    source: &'a str,
) -> (r: crate::internals::IResult<State<'a>, O>)
    requires
        source@.len() < usize::MAX,
        forall|st: State<'a>|
            st.wf() && st.source@ == source@ && st.position == 0 ==> call_requires(parser, (st,)),
    ensures
        exists|st: State<'a>|
            st.wf() && st.source@ == source@ && st.input@ == source@ && st.position == 0 && st.line
                == 1 && st.column == 1 && #[trigger] call_ensures(parser, (st,), r),
{
    let st = State::from_str(source);
    proof {
        assert(call_requires(parser, (st,)));
    }
    parser(st)
}

/// The same three primitives once more, this time against the
/// position-tracking cursor: failures carry the cursor at the point of
/// failure, and successes return an advanced cursor whose line and column
/// stay correct.
impl<'a> State<'a> {
    /// Parse the specific character `expected` at the cursor.
    pub fn item(self, expected: char) -> (r: crate::internals::IResult<State<'a>, char>)
        requires
            self.wf(),
        ensures
            self.input@.len() == 0 <==> (r matches Err(e) && e.input == self
                && e.reason == crate::internals::Reason::Eof),
            self.input@.len() > 0 && self.input@[0] != expected <==> (r matches Err(e) && e.input
                == self && (e.reason matches crate::internals::Reason::Return(m) && m@
                == "expected "@ + crate::traits::char_debug(expected))),
            self.input@.len() > 0 && self.input@[0] == expected <==> (r matches Ok((st2, c)) && c
                == expected && st2.wf() && self.advances_to(1, st2)),
    {
        let n = self.input.unicode_len();
        if n == 0 {
            crate::internals::ParseError::make_eof(self)
        } else {
            let actual = self.input.get_char(0);
            if actual != expected {
                crate::internals::ParseError::make_return(
                    self,
                    crate::traits::fmt_expected_char(expected),
                )
            } else {
                Ok((self.advance(1), actual))
            }
        }
    }

    /// Parse `n` characters at the cursor, returning the consumed text.
    pub fn take(self, n: usize) -> (r: crate::internals::IResult<State<'a>, &'a str>)
        requires
            self.wf(),
        ensures
            self.input@.len() == 0 <==> (r matches Err(e) && e.input == self
                && e.reason == crate::internals::Reason::Eof),
            self.input@.len() > 0 && n > self.input@.len() <==> (r matches Err(e) && e.input == self
                && (e.reason matches crate::internals::Reason::Return(m) && m@
                == "expected at least "@ + dec_rep(n as nat) + " chars"@)),
            self.input@.len() > 0 && n <= self.input@.len() <==> (r matches Ok((st2, prefix))
                && prefix@ == self.input@.subrange(0, n as int) && st2.wf() && self.advances_to(
                n as int,
                st2,
            )),
    {
        let len = self.input.unicode_len();
        if len == 0 {
            crate::internals::ParseError::make_eof(self)
        } else if n > len {
            crate::internals::ParseError::make_return(self, fmt_expected_at_least(n))
        } else {
            let prefix = self.input.substring_char(0, n);
            Ok((self.advance(n), prefix))
        }
    }

    /// Parse the longest non-empty run of characters matched by `predicate`
    /// at the cursor; a zero-length match is never a success.
    pub fn take_while<P: Fn(char) -> bool>(self, predicate: P, fail_msg: &'static str) -> (r:
        crate::internals::IResult<State<'a>, &'a str>)
        requires
            self.wf(),
            forall|j: int| 0 <= j < self.input@.len() ==> call_requires(
                predicate,
                (self.input@[j],),
            ),
        ensures
            self.input@.len() == 0 <==> (r matches Err(e) && e.input == self
                && e.reason == crate::internals::Reason::Eof),
            (r matches Err(e) ==> e.input == self && (e.reason == crate::internals::Reason::Eof || (
            e.reason matches crate::internals::Reason::Return(m) && m@ == fail_msg@))),
            (r matches Err(e) ==> (e.reason matches crate::internals::Reason::Return(m) ==> (
            e.input == self && self.input@.len() > 0 && call_ensures(
                predicate,
                (self.input@[0],),
                false,
            ) && m@ == fail_msg@))),
            self.input@.len() > 0 && (forall|b: bool|
                call_ensures(predicate, (self.input@[0],), b) ==> !b) ==> (r matches Err(e) && (
            e.reason matches crate::internals::Reason::Return(_))),
            self.input@.len() > 0 && (forall|b: bool|
                call_ensures(predicate, (self.input@[0],), b) ==> b) ==> r is Ok,
            self.input@.len() > 0 && (forall|j: int, b: bool|
                0 <= j < self.input@.len() && call_ensures(predicate, (self.input@[j],), b) ==> b)
                ==> (r matches Ok((st2, prefix)) && prefix@ == self.input@ && st2.input@.len()
                == 0),
            r matches Ok((st2, prefix)) ==> {
                &&& 1 <= prefix@.len() <= self.input@.len()
                &&& prefix@ == self.input@.subrange(0, prefix@.len() as int)
                &&& st2.wf()
                &&& self.advances_to(prefix@.len() as int, st2)
                &&& forall|j: int|
                    0 <= j < prefix@.len() ==> call_ensures(predicate, (self.input@[j],), true)
                &&& (prefix@.len() == self.input@.len() || call_ensures(
                    predicate,
                    (self.input@[prefix@.len() as int],),
                    false,
                ))
            },
    {
        let len = self.input.unicode_len();
        if len == 0 {
            return crate::internals::ParseError::make_eof(self);
        }
        let mut j: usize = 0;
        while j < len
            invariant
                self.wf(),
                j <= len,
                len == self.input@.len(),
                forall|t: int| 0 <= t < self.input@.len() ==> call_requires(
                    predicate,
                    (self.input@[t],),
                ),
                forall|t: int| 0 <= t < j ==> call_ensures(predicate, (self.input@[t],), true),
            decreases len - j,
        {
            let c = self.input.get_char(j);
            proof {
                assert(call_requires(predicate, (self.input@[j as int],)));
            }
            if !predicate(c) {
                if j == 0 {
                    return crate::internals::ParseError::make_return(self, fail_msg.to_string());
                }
                let prefix = self.input.substring_char(0, j);
                proof {
                    assert(call_ensures(predicate, (self.input@[0],), true));
                }
                return Ok((self.advance(j), prefix));
            }
            j = j + 1;
        }
        let prefix = self.input.substring_char(0, len);
        proof {
            assert(call_ensures(predicate, (self.input@[0],), true));
        }
        Ok((self.advance(len), prefix))
    }
}

} // verus!
