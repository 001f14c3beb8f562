//! The contract-language grammar rules that the library ships: symbols,
//! import statements, and modules made of import statements.
//!
//! Rules run over the position-tracking [`State`] cursor, so every failure
//! value carries an accurate line and column.  Each rule's contract is
//! stated against a spec-level mirror of the grammar over the source text:
//! `matches_*` says when the rule applies at a position, `*_end` where it
//! stops.

use vstd::prelude::*;

verus! {

use vstd::string::StrSliceExecFns;
use crate::asdl::parsers::spec_is_symbol_char;
use crate::asdl::parsers::spec_is_symbol_start;
use crate::asdl::parsers::is_symbol_char;
use crate::asdl::parsers::is_symbol_start;
use crate::ast::Span;
use crate::ast::Spanned;
use crate::internals::IResult;
use crate::internals::ParseError;
use crate::internals::Reason;
use crate::internals::State;
use crate::utils::scan_len;
use crate::utils::lemma_scan_len_bounds;
use crate::utils::lemma_scan_len_is;

/// The grammar rules that can be asked of the parser.
#[allow(non_camel_case_types)]
#[derive(Debug, PartialEq, Eq, Clone, Copy)]
pub enum Rule {
    symbol,
    import,
    module,
}

/// Blank characters inside a statement: spaces and tabs.
pub open spec fn spec_is_blank(c: char) -> bool {
    c == ' ' || c == '\t'
}

/// Whitespace between statements and inside parentheses: blanks and line
/// breaks.
pub open spec fn spec_is_blank_nl(c: char) -> bool {
    spec_is_blank(c) || c == '\n' || c == '\r'
}

#[verifier::when_used_as_spec(spec_is_blank)]
fn is_blank(c: char) -> (r: bool)
    ensures
        r == spec_is_blank(c),
{
    c == ' ' || c == '\t'
}

#[verifier::when_used_as_spec(spec_is_blank_nl)]
fn is_blank_nl(c: char) -> (r: bool)
    ensures
        r == spec_is_blank_nl(c),
{
    is_blank(c) || c == '\n' || c == '\r'
}

/// Length of the run of blanks at position `p`.
pub open spec fn blank_run(s: Seq<char>, p: int) -> int {
    scan_len(s.skip(p), |c: char| spec_is_blank(c))
}

/// Length of the run of blanks and line breaks at position `p`.
pub open spec fn blank_nl_run(s: Seq<char>, p: int) -> int {
    scan_len(s.skip(p), |c: char| spec_is_blank_nl(c))
}

/// Length of the run of dots at position `p`.
pub open spec fn dot_run(s: Seq<char>, p: int) -> int {
    scan_len(s.skip(p), |c: char| c == '.')
}

/// Length of the run of symbol characters at position `p`.
pub open spec fn sym_run(s: Seq<char>, p: int) -> int {
    scan_len(s.skip(p), |c: char| spec_is_symbol_char(c))
}

/// A symbol starts at position `p`.
pub open spec fn sym_at(s: Seq<char>, p: int) -> bool {
    0 <= p < s.len() && spec_is_symbol_start(s[p])
}

/// Position just after the symbol that starts at `p`.
pub open spec fn sym_end(s: Seq<char>, p: int) -> int {
    p + sym_run(s, p)
}

/// The literal text `t` stands at position `p`.
pub open spec fn tag_at(s: Seq<char>, p: int, t: Seq<char>) -> bool {
    0 <= p && p + t.len() <= s.len() && s.subrange(p, p + t.len()) == t
}

/// Advance the cursor across the blanks under it.
fn blanks<'a>(st: State<'a>) -> (r: State<'a>)
    requires
        st.wf(),
    ensures
        r.wf(),
        r.source@ == st.source@,
        r.position == st.position + blank_run(st.source@, st.position as int),
{
    let n = st.input.unicode_len();
    let mut j: usize = 0;
    while j < n
        invariant
            j <= n,
            n == st.input@.len(),
            st.wf(),
            forall|t: int| 0 <= t < j ==> spec_is_blank(#[trigger] st.input@[t]),
        decreases n - j,
    {
        if !is_blank(st.input.get_char(j)) {
            proof {
                lemma_scan_len_is(st.input@, |c: char| spec_is_blank(c), j as int);
            }
            return st.advance(j);
        }
        j = j + 1;
    }
    proof {
        lemma_scan_len_is(st.input@, |c: char| spec_is_blank(c), n as int);
    }
    st.advance(n)
}

/// Advance the cursor across the blanks and line breaks under it.
fn blanks_nl<'a>(st: State<'a>) -> (r: State<'a>)
    requires
        st.wf(),
    ensures
        r.wf(),
        r.source@ == st.source@,
        r.position == st.position + blank_nl_run(st.source@, st.position as int),
{
    let n = st.input.unicode_len();
    let mut j: usize = 0;
    while j < n
        invariant
            j <= n,
            n == st.input@.len(),
            st.wf(),
            forall|t: int| 0 <= t < j ==> spec_is_blank_nl(#[trigger] st.input@[t]),
        decreases n - j,
    {
        if !is_blank_nl(st.input.get_char(j)) {
            proof {
                lemma_scan_len_is(st.input@, |c: char| spec_is_blank_nl(c), j as int);
            }
            return st.advance(j);
        }
        j = j + 1;
    }
    proof {
        lemma_scan_len_is(st.input@, |c: char| spec_is_blank_nl(c), n as int);
    }
    st.advance(n)
}

/// Number of dots under the cursor.
fn dots<'a>(st: &State<'a>) -> (r: usize)
    requires
        st.wf(),
    ensures
        r == dot_run(st.source@, st.position as int),
{
    let n = st.input.unicode_len();
    let mut j: usize = 0;
    while j < n
        invariant
            j <= n,
            n == st.input@.len(),
            st.wf(),
            forall|t: int| 0 <= t < j ==> #[trigger] st.input@[t] == '.',
        decreases n - j,
    {
        if st.input.get_char(j) != '.' {
            proof {
                lemma_scan_len_is(st.input@, |c: char| c == '.', j as int);
            }
            return j;
        }
        j = j + 1;
    }
    proof {
        lemma_scan_len_is(st.input@, |c: char| c == '.', n as int);
    }
    n
}

/// Does the literal text `t` stand under the cursor?
fn tag_here<'a>(st: &State<'a>, t: &'static str) -> (r: bool)
    requires
        st.wf(),
    ensures
        r == tag_at(st.source@, st.position as int, t@),
{
    let tn = t.unicode_len();
    let n = st.input.unicode_len();
    if n < tn {
        return false;
    }
    let pre = st.input.substring_char(0, tn);
    let r = crate::utils::str_eq(pre, t);
    proof {
        assert(st.input@.subrange(0, tn as int) =~= st.source@.subrange(
            st.position as int,
            st.position + tn,
        ));
    }
    r
}

/// Parse a symbol: a letter or underscore, then the longest run of symbol
/// characters.
pub fn p_symbol<'a>(st: State<'a>) -> (r: IResult<State<'a>, Span>)
    requires
        st.wf(),
    ensures
        r is Ok <==> sym_at(st.source@, st.position as int),
        (r matches Ok((st2, sp)) ==> st2.wf() && st2.source@ == st.source@ && st2.position
            == sym_end(st.source@, st.position as int) && sp.start == st.position && sp.end
            == st2.position),
        (r matches Err(e) ==> e.input == st && (e.reason matches Reason::Return(_))),
{
    let n = st.input.unicode_len();
    if n == 0 || !is_symbol_start(st.input.get_char(0)) {
        return ParseError::make_return(st, "expected symbol".to_string());
    }
    let k = crate::asdl::parsers::scan_symbol_chars(st.input);
    proof {
        lemma_scan_len_bounds(st.input@, |c: char| spec_is_symbol_char(c));
    }
    let st2 = st.advance(k);
    Ok((st2, Span { start: st.position, end: st2.position }))
}

/// A module path starts at `p`: at most two leading dots, then a symbol.
pub open spec fn matches_path(s: Seq<char>, p: int) -> bool {
    &&& 0 <= p <= s.len()
    &&& dot_run(s, p) <= 2
    &&& sym_at(s, p + dot_run(s, p))
}

/// Where the trailing `"." symbol` repetitions that begin at `p` end.
pub open spec fn path_more_end(s: Seq<char>, p: int) -> int
    decreases s.len() - p,
{
    if 0 <= p && p < s.len() && s[p] == '.' && sym_at(s, p + 1) {
        let e = sym_end(s, p + 1);
        if p < e && e <= s.len() {
            path_more_end(s, e)
        } else {
            p
        }
    } else {
        p
    }
}

/// Position just after the module path that starts at `p`.
pub open spec fn path_end(s: Seq<char>, p: int) -> int {
    path_more_end(s, sym_end(s, p + dot_run(s, p)))
}

pub proof fn lemma_sym_run_bounds(s: Seq<char>, p: int)
    requires
        0 <= p <= s.len(),
    ensures
        0 <= sym_run(s, p) <= s.len() - p,
        sym_at(s, p) ==> sym_run(s, p) >= 1,
{
    lemma_scan_len_bounds(s.skip(p), |c: char| spec_is_symbol_char(c));
    if sym_at(s, p) {
        assert(s.skip(p)[0] == s[p]);
        assert(scan_len(s.skip(p), |c: char| spec_is_symbol_char(c)) >= 1);
    }
}

pub proof fn lemma_path_more_end_bounds(s: Seq<char>, p: int)
    requires
        0 <= p <= s.len(),
    ensures
        p <= path_more_end(s, p) <= s.len(),
    decreases s.len() - p,
{
    if 0 <= p && p < s.len() && s[p] == '.' && sym_at(s, p + 1) {
        let e = sym_end(s, p + 1);
        if p < e && e <= s.len() {
            lemma_path_more_end_bounds(s, e);
        }
    }
}

pub proof fn lemma_path_end_bounds(s: Seq<char>, p: int)
    requires
        matches_path(s, p),
    ensures
        p + 1 <= path_end(s, p) <= s.len(),
{
    let d = dot_run(s, p);
    lemma_scan_len_bounds(s.skip(p), |c: char| c == '.');
    lemma_sym_run_bounds(s, p + d);
    lemma_path_more_end_bounds(s, sym_end(s, p + d));
}

/// Parse a module path: up to two leading dots, a symbol, then further
/// dot-separated symbols.
pub fn p_path<'a>(st: State<'a>) -> (r: IResult<State<'a>, Span>)
    requires
        st.wf(),
    ensures
        r is Ok <==> matches_path(st.source@, st.position as int),
        (r matches Ok((st2, sp)) ==> st2.wf() && st2.source@ == st.source@ && st2.position
            == path_end(st.source@, st.position as int) && sp.start == st.position && sp.end
            == st2.position),
        (r matches Err(e) ==> (e.reason matches Reason::Return(_)) && e.input.wf()
            && e.input.source@ == st.source@ && st.position <= e.input.position),
{
    let ghost s = st.source@;
    let ghost p0 = st.position as int;
    let d = dots(&st);
    if d > 2 {
        return ParseError::make_return(st, "expected module path".to_string());
    }
    proof {
        lemma_scan_len_bounds(st.input@, |c: char| c == '.');
    }
    let st1 = st.advance(d);
    let (st2, _) = match p_symbol(st1) {
        Ok(v) => v,
        Err(e) => {
            return ParseError::make_return(st, "expected module path".to_string());
        },
    };
    let ghost q0 = st2.position as int;
    let mut cur = st2;
    let mut going = true;
    while going
        invariant
            st.wf(),
            cur.wf(),
            cur.source@ == s,
            q0 <= cur.position <= s.len(),
            path_more_end(s, q0) == path_more_end(s, cur.position as int),
            !going ==> path_more_end(s, cur.position as int) == cur.position as int,
        decreases s.len() - cur.position + (if going {
            1int
        } else {
            0int
        }),
    {
        let ghost q = cur.position as int;
        let n = cur.input.unicode_len();
        if n >= 1 && cur.input.get_char(0) == '.' {
            let st_dot = cur.advance(1);
            match p_symbol(st_dot) {
                Ok((nxt, _)) => {
                    proof {
                        lemma_sym_run_bounds(s, q + 1);
                        assert(path_more_end(s, q) == path_more_end(s, nxt.position as int));
                    }
                    cur = nxt;
                },
                Err(_) => {
                    going = false;
                },
            }
        } else {
            going = false;
        }
    }
    Ok((cur, Span { start: st.position, end: cur.position }))
}

pub proof fn lemma_blank_run_bounds(s: Seq<char>, p: int)
    requires
        0 <= p <= s.len(),
    ensures
        0 <= blank_run(s, p) <= s.len() - p,
{
    lemma_scan_len_bounds(s.skip(p), |c: char| spec_is_blank(c));
}

pub proof fn lemma_blank_nl_run_bounds(s: Seq<char>, p: int)
    requires
        0 <= p <= s.len(),
    ensures
        0 <= blank_nl_run(s, p) <= s.len() - p,
{
    lemma_scan_len_bounds(s.skip(p), |c: char| spec_is_blank_nl(c));
}

/// An `as` alias starts at `p`: the keyword, at least one blank, a symbol.
pub open spec fn matches_alias(s: Seq<char>, p: int) -> bool {
    &&& tag_at(s, p, "as"@)
    &&& blank_run(s, p + "as"@.len()) >= 1
    &&& sym_at(s, p + "as"@.len() + blank_run(s, p + "as"@.len()))
}

/// Position just after the alias that starts at `p`.
pub open spec fn alias_end(s: Seq<char>, p: int) -> int {
    let b = p + "as"@.len() + blank_run(s, p + "as"@.len());
    sym_end(s, b)
}

pub proof fn lemma_alias_end_bounds(s: Seq<char>, p: int)
    requires
        matches_alias(s, p),
    ensures
        p + 1 <= alias_end(s, p) <= s.len(),
{
    let k = p + "as"@.len();
    lemma_blank_run_bounds(s, k);
    let b = k + blank_run(s, k);
    lemma_sym_run_bounds(s, b);
}

/// Parse `as` followed by a symbol.
pub fn p_alias<'a>(st: State<'a>) -> (r: IResult<State<'a>, Span>)
    requires
        st.wf(),
    ensures
        r is Ok <==> matches_alias(st.source@, st.position as int),
        (r matches Ok((st2, sp)) ==> st2.wf() && st2.source@ == st.source@ && st2.position
            == alias_end(st.source@, st.position as int) && sp.start == st.position && sp.end
            == st2.position),
        (r matches Err(e) ==> (e.reason matches Reason::Return(_)) && e.input.wf()
            && e.input.source@ == st.source@ && st.position <= e.input.position),
{
    if !tag_here(&st, "as") {
        return ParseError::make_return(st, "expected alias".to_string());
    }
    let kwlen = "as".unicode_len();
    let st1 = st.advance(kwlen);
    let stb = blanks(st1);
    if stb.position == st1.position {
        return ParseError::make_return(st1, "expected alias".to_string());
    }
    proof {
        lemma_blank_run_bounds(st.source@, st1.position as int);
    }
    let (st2, _) = match p_symbol(stb) {
        Ok(v) => v,
        Err(e) => {
            return Err(e);
        },
    };
    Ok((st2, Span { start: st.position, end: st2.position }))
}

/// A symbol, optionally followed by an alias, starts at `p`.
pub open spec fn matches_saa(s: Seq<char>, p: int) -> bool {
    sym_at(s, p)
}

/// Position just after the symbol-with-optional-alias that starts at `p`.
pub open spec fn saa_end(s: Seq<char>, p: int) -> int {
    let e = sym_end(s, p);
    let b = e + blank_run(s, e);
    if b > e && matches_alias(s, b) {
        alias_end(s, b)
    } else {
        e
    }
}

pub proof fn lemma_saa_end_bounds(s: Seq<char>, p: int)
    requires
        sym_at(s, p),
    ensures
        p + 1 <= saa_end(s, p) <= s.len(),
{
    lemma_sym_run_bounds(s, p);
    let e = sym_end(s, p);
    lemma_blank_run_bounds(s, e);
    let b = e + blank_run(s, e);
    if b > e && matches_alias(s, b) {
        lemma_alias_end_bounds(s, b);
    }
}

/// Parse a symbol with an optional `as` alias; an alias that does not
/// materialise is backtracked.
pub fn p_saa<'a>(st: State<'a>) -> (r: IResult<State<'a>, Span>)
    requires
        st.wf(),
    ensures
        r is Ok <==> matches_saa(st.source@, st.position as int),
        (r matches Ok((st2, sp)) ==> st2.wf() && st2.source@ == st.source@ && st2.position
            == saa_end(st.source@, st.position as int) && sp.start == st.position && sp.end
            == st2.position),
        (r matches Err(e) ==> (e.reason matches Reason::Return(_)) && e.input.wf()
            && e.input.source@ == st.source@ && st.position <= e.input.position),
{
    let (st1, _) = match p_symbol(st) {
        Ok(v) => v,
        Err(e) => {
            return Err(e);
        },
    };
    let stb = blanks(st1);
    proof {
        lemma_blank_run_bounds(st.source@, st1.position as int);
    }
    if stb.position > st1.position {
        match p_alias(stb) {
            Ok((st2, _)) => {
                return Ok((st2, Span { start: st.position, end: st2.position }));
            },
            Err(_) => {
                // No alias follows: keep the cursor right after the symbol.
            },
        }
    }
    Ok((st1, Span { start: st.position, end: st1.position }))
}

/// Where the trailing `"," symbol-as-alias` repetitions that begin at `p`
/// end.
pub open spec fn list_more_end(s: Seq<char>, p: int) -> int
    decreases s.len() - p,
{
    if 0 <= p && p <= s.len() {
        let c = p + blank_nl_run(s, p);
        if c < s.len() && s[c] == ',' {
            let q = c + 1 + blank_nl_run(s, c + 1);
            if sym_at(s, q) {
                let e = saa_end(s, q);
                if p < e && e <= s.len() {
                    list_more_end(s, e)
                } else {
                    p
                }
            } else {
                p
            }
        } else {
            p
        }
    } else {
        p
    }
}

pub proof fn lemma_list_more_end_bounds(s: Seq<char>, p: int)
    requires
        0 <= p <= s.len(),
    ensures
        p <= list_more_end(s, p) <= s.len(),
    decreases s.len() - p,
{
    let c = p + blank_nl_run(s, p);
    if c < s.len() && s[c] == ',' {
        let q = c + 1 + blank_nl_run(s, c + 1);
        if sym_at(s, q) {
            let e = saa_end(s, q);
            if p < e && e <= s.len() {
                lemma_list_more_end_bounds(s, e);
            }
        }
    }
}

/// Position of the first entry of the import list that starts at `p`.
pub open spec fn list_first_pos(s: Seq<char>, p: int) -> int {
    p + 1 + blank_nl_run(s, p + 1)
}

/// Position of the text after the last entry of the import list.
pub open spec fn list_last_end(s: Seq<char>, p: int) -> int {
    list_more_end(s, saa_end(s, list_first_pos(s, p)))
}

/// A parenthesised import list starts at `p`: entries separated by commas,
/// an optional trailing comma, line breaks allowed throughout.
pub open spec fn matches_import_list(s: Seq<char>, p: int) -> bool {
    &&& 0 <= p < s.len() && s[p] == '('
    &&& sym_at(s, list_first_pos(s, p))
    &&& {
        let pe = list_last_end(s, p);
        let c = pe + blank_nl_run(s, pe);
        if c < s.len() && s[c] == ',' {
            let c2 = c + 1 + blank_nl_run(s, c + 1);
            c2 < s.len() && s[c2] == ')'
        } else {
            c < s.len() && s[c] == ')'
        }
    }
}

/// Position just after the import list that starts at `p`.
pub open spec fn import_list_end(s: Seq<char>, p: int) -> int {
    let pe = list_last_end(s, p);
    let c = pe + blank_nl_run(s, pe);
    if c < s.len() && s[c] == ',' {
        c + 1 + blank_nl_run(s, c + 1) + 1
    } else {
        c + 1
    }
}

pub proof fn lemma_import_list_end_bounds(s: Seq<char>, p: int)
    requires
        matches_import_list(s, p),
    ensures
        p + 1 <= import_list_end(s, p) <= s.len(),
{
    lemma_blank_nl_run_bounds(s, p + 1);
    let q0 = list_first_pos(s, p);
    lemma_saa_end_bounds(s, q0);
    lemma_list_more_end_bounds(s, saa_end(s, q0));
    let pe = list_last_end(s, p);
    lemma_blank_nl_run_bounds(s, pe);
    let c = pe + blank_nl_run(s, pe);
    if c < s.len() && s[c] == ',' {
        lemma_blank_nl_run_bounds(s, c + 1);
    }
}

/// Parse a parenthesised import list.
pub fn p_import_list<'a>(st: State<'a>) -> (r: IResult<State<'a>, Span>)
    requires
        st.wf(),
    ensures
        r is Ok <==> matches_import_list(st.source@, st.position as int),
        (r matches Ok((st2, sp)) ==> st2.wf() && st2.source@ == st.source@ && st2.position
            == import_list_end(st.source@, st.position as int) && sp.start == st.position
            && sp.end == st2.position),
        (r matches Err(e) ==> (e.reason matches Reason::Return(_)) && e.input.wf()
            && e.input.source@ == st.source@ && st.position <= e.input.position),
{
    let ghost s = st.source@;
    let ghost p0 = st.position as int;
    let n = st.input.unicode_len();
    if n == 0 || st.input.get_char(0) != '(' {
        return ParseError::make_return(st, "expected import list".to_string());
    }
    let stq = blanks_nl(st.advance(1));
    proof {
        lemma_blank_nl_run_bounds(s, p0 + 1);
    }
    let (sta, _) = match p_saa(stq) {
        Ok(v) => v,
        Err(e) => {
            return Err(e);
        },
    };
    proof {
        lemma_saa_end_bounds(s, stq.position as int);
    }
    let ghost pe0 = sta.position as int;
    let mut cur = sta;
    let mut going = true;
    while going
        invariant
            st.wf(),
            cur.wf(),
            cur.source@ == s,
            pe0 <= cur.position <= s.len(),
            list_more_end(s, pe0) == list_more_end(s, cur.position as int),
            !going ==> list_more_end(s, cur.position as int) == cur.position as int,
        decreases s.len() - cur.position + (if going {
            1int
        } else {
            0int
        }),
    {
        let ghost q = cur.position as int;
        let stc = blanks_nl(cur);
        proof {
            lemma_blank_nl_run_bounds(s, q);
        }
        let nc = stc.input.unicode_len();
        if nc >= 1 && stc.input.get_char(0) == ',' {
            let stq2 = blanks_nl(stc.advance(1));
            proof {
                lemma_blank_nl_run_bounds(s, stc.position + 1);
            }
            match p_saa(stq2) {
                Ok((nxt, _)) => {
                    proof {
                        lemma_saa_end_bounds(s, stq2.position as int);
                        assert(list_more_end(s, q) == list_more_end(s, nxt.position as int));
                    }
                    cur = nxt;
                },
                Err(_) => {
                    going = false;
                },
            }
        } else {
            going = false;
        }
    }
    let stc = blanks_nl(cur);
    proof {
        lemma_blank_nl_run_bounds(s, cur.position as int);
    }
    let nc = stc.input.unicode_len();
    if nc >= 1 && stc.input.get_char(0) == ',' {
        let st_after = blanks_nl(stc.advance(1));
        proof {
            lemma_blank_nl_run_bounds(s, stc.position + 1);
        }
        let na = st_after.input.unicode_len();
        if na >= 1 && st_after.input.get_char(0) == ')' {
            let fin = st_after.advance(1);
            return Ok((fin, Span { start: st.position, end: fin.position }));
        }
        return ParseError::make_return(st_after, "expected import list".to_string());
    }
    if nc >= 1 && stc.input.get_char(0) == ')' {
        let fin = stc.advance(1);
        return Ok((fin, Span { start: st.position, end: fin.position }));
    }
    ParseError::make_return(stc, "expected import list".to_string())
}

/// A plain import starts at `p`: the `import` keyword, at least one blank,
/// a module path.
pub open spec fn matches_simp(s: Seq<char>, p: int) -> bool {
    &&& tag_at(s, p, "import"@)
    &&& blank_run(s, p + "import"@.len()) >= 1
    &&& matches_path(s, p + "import"@.len() + blank_run(s, p + "import"@.len()))
}

/// Position just after the plain import that starts at `p`.
pub open spec fn simp_end(s: Seq<char>, p: int) -> int {
    path_end(s, p + "import"@.len() + blank_run(s, p + "import"@.len()))
}

/// Position of the import target (a list or a symbol) of the `from` import
/// that starts at `p`.
pub open spec fn from_target_pos(s: Seq<char>, p: int) -> int {
    let q = p + "from"@.len() + blank_run(s, p + "from"@.len());
    let pe = path_end(s, q);
    let ip = pe + blank_run(s, pe);
    ip + "import"@.len() + blank_run(s, ip + "import"@.len())
}

/// A `from` import starts at `p`: `from`, a module path, `import`, then
/// either a parenthesised list or a single aliased symbol.
pub open spec fn matches_from(s: Seq<char>, p: int) -> bool {
    &&& tag_at(s, p, "from"@)
    &&& blank_run(s, p + "from"@.len()) >= 1
    &&& matches_path(s, p + "from"@.len() + blank_run(s, p + "from"@.len()))
    &&& {
        let pe = path_end(s, p + "from"@.len() + blank_run(s, p + "from"@.len()));
        &&& blank_run(s, pe) >= 1
        &&& {
            let ip = pe + blank_run(s, pe);
            &&& tag_at(s, ip, "import"@)
            &&& blank_run(s, ip + "import"@.len()) >= 1
            &&& {
                let tp = from_target_pos(s, p);
                if tp < s.len() && s[tp] == '(' {
                    matches_import_list(s, tp)
                } else {
                    sym_at(s, tp)
                }
            }
        }
    }
}

/// Position just after the `from` import that starts at `p`.
pub open spec fn from_end(s: Seq<char>, p: int) -> int {
    let tp = from_target_pos(s, p);
    if tp < s.len() && s[tp] == '(' {
        import_list_end(s, tp)
    } else {
        saa_end(s, tp)
    }
}

/// An import statement starts at `p`; the `from` keyword decides which
/// form.
pub open spec fn matches_import(s: Seq<char>, p: int) -> bool {
    if tag_at(s, p, "from"@) {
        matches_from(s, p)
    } else {
        matches_simp(s, p)
    }
}

/// Position just after the import statement that starts at `p`.
pub open spec fn import_end(s: Seq<char>, p: int) -> int {
    if tag_at(s, p, "from"@) {
        from_end(s, p)
    } else {
        simp_end(s, p)
    }
}

pub proof fn lemma_import_end_bounds(s: Seq<char>, p: int)
    requires
        0 <= p <= s.len(),
        matches_import(s, p),
    ensures
        p + 1 <= import_end(s, p) <= s.len(),
{
    if tag_at(s, p, "from"@) {
        let k = p + "from"@.len();
        lemma_blank_run_bounds(s, k);
        let q = k + blank_run(s, k);
        lemma_path_end_bounds(s, q);
        let pe = path_end(s, q);
        lemma_blank_run_bounds(s, pe);
        let ip = pe + blank_run(s, pe);
        let k2 = ip + "import"@.len();
        lemma_blank_run_bounds(s, k2);
        let tp = from_target_pos(s, p);
        if tp < s.len() && s[tp] == '(' {
            lemma_import_list_end_bounds(s, tp);
        } else {
            lemma_saa_end_bounds(s, tp);
        }
    } else {
        let k = p + "import"@.len();
        lemma_blank_run_bounds(s, k);
        let q = k + blank_run(s, k);
        lemma_path_end_bounds(s, q);
    }
}

/// Parse a plain import: `import path`.
pub fn p_simp_import<'a>(st: State<'a>) -> (r: IResult<State<'a>, Span>)
    requires
        st.wf(),
    ensures
        r is Ok <==> matches_simp(st.source@, st.position as int),
        (r matches Ok((st2, sp)) ==> st2.wf() && st2.source@ == st.source@ && st2.position
            == simp_end(st.source@, st.position as int) && sp.start == st.position && sp.end
            == st2.position),
        (r matches Err(e) ==> (e.reason matches Reason::Return(_)) && e.input.wf()
            && e.input.source@ == st.source@ && st.position <= e.input.position),
{
    if !tag_here(&st, "import") {
        return ParseError::make_return(st, "expected import".to_string());
    }
    let kwlen = "import".unicode_len();
    let st1 = st.advance(kwlen);
    let stb = blanks(st1);
    proof {
        lemma_blank_run_bounds(st.source@, st1.position as int);
    }
    if stb.position == st1.position {
        return ParseError::make_return(st1, "expected whitespace".to_string());
    }
    let (st2, _) = match p_path(stb) {
        Ok(v) => v,
        Err(e) => {
            return Err(e);
        },
    };
    Ok((st2, Span { start: st.position, end: st2.position }))
}

/// Parse a `from` import: `from path import target`.
pub fn p_from_import<'a>(st: State<'a>) -> (r: IResult<State<'a>, Span>)
    requires
        st.wf(),
    ensures
        r is Ok <==> matches_from(st.source@, st.position as int),
        (r matches Ok((st2, sp)) ==> st2.wf() && st2.source@ == st.source@ && st2.position
            == from_end(st.source@, st.position as int) && sp.start == st.position && sp.end
            == st2.position),
        (r matches Err(e) ==> (e.reason matches Reason::Return(_)) && e.input.wf()
            && e.input.source@ == st.source@ && st.position <= e.input.position),
{
    let ghost s = st.source@;
    if !tag_here(&st, "from") {
        return ParseError::make_return(st, "expected from".to_string());
    }
    let kwlen = "from".unicode_len();
    let st1 = st.advance(kwlen);
    let stb = blanks(st1);
    proof {
        lemma_blank_run_bounds(s, st1.position as int);
    }
    if stb.position == st1.position {
        return ParseError::make_return(st1, "expected whitespace".to_string());
    }
    let (stp, _) = match p_path(stb) {
        Ok(v) => v,
        Err(e) => {
            return Err(e);
        },
    };
    let stb2 = blanks(stp);
    proof {
        lemma_path_end_bounds(s, stb.position as int);
        lemma_blank_run_bounds(s, stp.position as int);
    }
    if stb2.position == stp.position {
        return ParseError::make_return(stp, "expected whitespace".to_string());
    }
    if !tag_here(&stb2, "import") {
        return ParseError::make_return(stb2, "expected import".to_string());
    }
    let iklen = "import".unicode_len();
    let st2 = stb2.advance(iklen);
    let stb3 = blanks(st2);
    proof {
        lemma_blank_run_bounds(s, st2.position as int);
    }
    if stb3.position == st2.position {
        return ParseError::make_return(st2, "expected whitespace".to_string());
    }
    let nt = stb3.input.unicode_len();
    if nt >= 1 && stb3.input.get_char(0) == '(' {
        let (fin, _) = match p_import_list(stb3) {
            Ok(v) => v,
            Err(e) => {
                return Err(e);
            },
        };
        Ok((fin, Span { start: st.position, end: fin.position }))
    } else {
        let (fin, _) = match p_saa(stb3) {
            Ok(v) => v,
            Err(e) => {
                return Err(e);
            },
        };
        Ok((fin, Span { start: st.position, end: fin.position }))
    }
}

/// Parse an import statement, deciding the form by its first keyword.
pub fn p_import<'a>(st: State<'a>) -> (r: IResult<State<'a>, Span>)
    requires
        st.wf(),
    ensures
        r is Ok <==> matches_import(st.source@, st.position as int),
        (r matches Ok((st2, sp)) ==> st2.wf() && st2.source@ == st.source@ && st2.position
            == import_end(st.source@, st.position as int) && sp.start == st.position && sp.end
            == st2.position),
        (r matches Err(e) ==> (e.reason matches Reason::Return(_)) && e.input.wf()
            && e.input.source@ == st.source@ && st.position <= e.input.position),
{
    if tag_here(&st, "from") {
        p_from_import(st)
    } else {
        p_simp_import(st)
    }
}

/// A run of import statements separated by whitespace fills the text from
/// `p` to its end.
pub open spec fn matches_stmts(s: Seq<char>, p: int) -> bool
    decreases s.len() - p,
{
    if 0 <= p <= s.len() {
        let c = p + blank_nl_run(s, p);
        if c >= s.len() {
            true
        } else {
            &&& matches_import(s, c)
            &&& {
                let e = import_end(s, c);
                p <= c && c < e && e <= s.len() && matches_stmts(s, e)
            }
        }
    } else {
        false
    }
}

/// Parse a whole module: import statements up to the end of the input.
pub fn p_module<'a>(st: State<'a>) -> (r: IResult<State<'a>, Span>)
    requires
        st.wf(),
    ensures
        r is Ok <==> matches_stmts(st.source@, st.position as int),
        (r matches Ok((st2, sp)) ==> st2.wf() && st2.source@ == st.source@ && st2.position
            == st.source@.len() && sp.start == st.position && sp.end == st2.position),
        (r matches Err(e) ==> (e.reason matches Reason::Return(_)) && e.input.wf()
            && e.input.source@ == st.source@ && st.position <= e.input.position),
{
    let ghost s = st.source@;
    let ghost p0 = st.position as int;
    let mut cur = st;
    let mut outcome: Option<IResult<State<'a>, Span>> = None;
    while outcome.is_none()
        invariant
            st.wf(),
            cur.wf(),
            cur.source@ == s,
            s == st.source@,
            p0 == st.position as int,
            p0 <= cur.position <= s.len(),
            matches_stmts(s, p0) <==> matches_stmts(s, cur.position as int),
            (outcome matches Some(o) ==> {
                &&& (o is Ok <==> matches_stmts(s, p0))
                &&& (o matches Ok((st2, sp)) ==> st2.wf() && st2.source@ == s && st2.position
                    == s.len() && sp.start == p0 && sp.end == st2.position)
                &&& (o matches Err(e) ==> (e.reason matches Reason::Return(_)) && e.input.wf()
                    && e.input.source@ == s && p0 <= e.input.position)
            }),
        decreases s.len() - cur.position + (if outcome is None {
            1int
        } else {
            0int
        }),
    {
        let ghost q = cur.position as int;
        let stc = blanks_nl(cur);
        proof {
            lemma_blank_nl_run_bounds(s, q);
        }
        let nc = stc.input.unicode_len();
        if nc == 0 {
            proof {
                assert(stc.position == s.len());
                assert(matches_stmts(s, q));
            }
            outcome = Some(Ok((stc, Span { start: st.position, end: stc.position })));
        } else {
            match p_import(stc) {
                Ok((nxt, _)) => {
                    proof {
                        lemma_import_end_bounds(s, stc.position as int);
                        assert(matches_stmts(s, q) <==> matches_stmts(s, nxt.position as int));
                    }
                    cur = nxt;
                },
                Err(e) => {
                    proof {
                        assert(!matches_stmts(s, q));
                    }
                    outcome = Some(Err(e));
                },
            }
        }
    }
    match outcome {
        Some(o) => o,
        None => ParseError::make_return(st, "expected module".to_string()),
    }
}

/// The parsing front end for the contract language: give it a rule and a
/// source text, and it matches the rule at the start of the text.
pub struct VyperParser;

impl VyperParser {
    /// Apply `rule` once to the start of `input`, reporting the span it
    /// matched.  The bound on the input length is a machine limit: each
    /// character of a `&str` takes at least one byte.
    pub fn parse<'a>(rule: Rule, input: &'a str) -> (r: Result<
        Spanned<Rule>,
        ParseError<State<'a>>,
    >)
        requires
            input@.len() < usize::MAX,
        ensures
            rule == Rule::symbol ==> (r is Ok <==> sym_at(input@, 0)),
            rule == Rule::import ==> (r is Ok <==> matches_import(input@, 0)),
            rule == Rule::module ==> (r is Ok <==> matches_stmts(input@, 0)),
            (r matches Ok(sp) ==> sp.node == rule && sp.span.start == 0 && (rule == Rule::symbol
                ==> sp.span.end == sym_end(input@, 0)) && (rule == Rule::import ==> sp.span.end
                == import_end(input@, 0)) && (rule == Rule::module ==> sp.span.end
                == input@.len())),
            (r matches Err(e) ==> (e.reason matches Reason::Return(_)) && e.input.wf()
                && e.input.source@ == input@ && e.input.position <= input@.len()),
    {
        let st = State::from_str(input);
        match rule {
            Rule::symbol => match p_symbol(st) {
                Ok((_, sp)) => Ok(Spanned { node: rule, span: sp }),
                Err(e) => Err(e),
            },
            Rule::import => match p_import(st) {
                Ok((_, sp)) => Ok(Spanned { node: rule, span: sp }),
                Err(e) => Err(e),
            },
            Rule::module => match p_module(st) {
                Ok((_, sp)) => Ok(Spanned { node: rule, span: sp }),
                Err(e) => Err(e),
            },
        }
    }
}

} // verus!
