//! Recursive-descent parsers for the schema-description language, built on
//! the cursor-free string primitives.
//!
//! Every parser takes the remaining input and returns the rest of the input
//! together with what it parsed, or a recoverable failure.  Each one's
//! contract is stated against a spec-level mirror of the grammar: `matches_*`
//! says when the rule applies, `*_end` how many characters it consumes.

use vstd::prelude::*;

verus! {

use vstd::string::StrSliceExecFns;
use crate::asdl::ast::Count;
use crate::asdl::ast::Definition;
use crate::asdl::ast::Field;
use crate::asdl::ast::Fields;
use crate::asdl::ast::Module;
use crate::asdl::ast::Type;
use crate::internals::IResult;
use crate::internals::ParseError;
use crate::internals::Reason;
use crate::utils::scan_len;
use crate::utils::lemma_scan_len_bounds;
use crate::utils::lemma_scan_len_is;

/// Characters that may open a symbol: letters and the underscore.
pub open spec fn spec_is_symbol_start(c: char) -> bool {
    c == '_' || ('a' <= c && c <= 'z') || ('A' <= c && c <= 'Z')
}

/// Characters that may continue a symbol: letters, digits, the underscore.
pub open spec fn spec_is_symbol_char(c: char) -> bool {
    spec_is_symbol_start(c) || ('0' <= c && c <= '9')
}

/// The whitespace characters skipped between tokens.
pub open spec fn spec_is_space(c: char) -> bool {
    c == ' ' || c == '\t' || c == '\n' || c == '\r'
}

#[verifier::when_used_as_spec(spec_is_symbol_start)]
pub fn is_symbol_start(c: char) -> (r: bool)
    ensures
        r == spec_is_symbol_start(c),
{
    c == '_' || ('a' <= c && c <= 'z') || ('A' <= c && c <= 'Z')
}

#[verifier::when_used_as_spec(spec_is_symbol_char)]
pub fn is_symbol_char(c: char) -> (r: bool)
    ensures
        r == spec_is_symbol_char(c),
{
    is_symbol_start(c) || ('0' <= c && c <= '9')
}

#[verifier::when_used_as_spec(spec_is_space)]
pub fn is_space(c: char) -> (r: bool)
    ensures
        r == spec_is_space(c),
{
    c == ' ' || c == '\t' || c == '\n' || c == '\r'
}

/// Length of the leading run of symbol characters.
pub open spec fn sym_len(s: Seq<char>) -> int {
    scan_len(s, |c: char| spec_is_symbol_char(c))
}

/// Length of the leading run of whitespace.
pub open spec fn space_len(s: Seq<char>) -> int {
    scan_len(s, |c: char| spec_is_space(c))
}

/// A symbol can be parsed here: the first character opens one.
pub open spec fn matches_symbol(s: Seq<char>) -> bool {
    s.len() > 0 && spec_is_symbol_start(s[0])
}

/// Characters consumed by a symbol token: the symbol and the whitespace
/// after it.
pub open spec fn symbol_token_end(s: Seq<char>) -> int {
    sym_len(s) + space_len(s.skip(sym_len(s)))
}

pub(crate) fn scan_symbol_chars(s: &str) -> (r: usize)
    ensures
        r == sym_len(s@),
{
    let n = s.unicode_len();
    let mut j: usize = 0;
    while j < n
        invariant
            j <= n,
            n == s@.len(),
            forall|t: int| 0 <= t < j ==> spec_is_symbol_char(#[trigger] s@[t]),
        decreases n - j,
    {
        if !is_symbol_char(s.get_char(j)) {
            proof {
                lemma_scan_len_is(s@, |c: char| spec_is_symbol_char(c), j as int);
            }
            return j;
        }
        j = j + 1;
    }
    proof {
        lemma_scan_len_is(s@, |c: char| spec_is_symbol_char(c), n as int);
    }
    n
}

fn scan_spaces(s: &str) -> (r: usize)
    ensures
        r == space_len(s@),
{
    let n = s.unicode_len();
    let mut j: usize = 0;
    while j < n
        invariant
            j <= n,
            n == s@.len(),
            forall|t: int| 0 <= t < j ==> spec_is_space(#[trigger] s@[t]),
        decreases n - j,
    {
        if !is_space(s.get_char(j)) {
            proof {
                lemma_scan_len_is(s@, |c: char| spec_is_space(c), j as int);
            }
            return j;
        }
        j = j + 1;
    }
    proof {
        lemma_scan_len_is(s@, |c: char| spec_is_space(c), n as int);
    }
    n
}

/// Skip the leading whitespace.
fn skip_spaces<'a>(i: &'a str) -> (r: &'a str)
    ensures
        r@ == i@.skip(space_len(i@)),
{
    let k = scan_spaces(i);
    proof {
        lemma_scan_len_bounds(i@, |c: char| spec_is_space(c));
    }
    let n = i.unicode_len();
    i.substring_char(k, n)
}

/// Parse a symbol: a letter or underscore followed by the longest run of
/// symbol characters.
pub fn symbol<'a>(i: &'a str) -> (r: IResult<&'a str, &'a str>)
    ensures
        r is Ok <==> matches_symbol(i@),
        (r matches Ok((rest, sym)) ==> sym@ == i@.subrange(0, sym_len(i@)) && rest@ == i@.skip(
            sym_len(i@),
        )),
        (r matches Err(e) ==> e.input == i && (e.reason matches Reason::Return(m) && m@
            == "expected symbol"@)),
{
    let n = i.unicode_len();
    if n == 0 || !is_symbol_start(i.get_char(0)) {
        return ParseError::make_return(i, "expected symbol".to_string());
    }
    let k = scan_symbol_chars(i);
    proof {
        lemma_scan_len_bounds(i@, |c: char| spec_is_symbol_char(c));
    }
    let sym = i.substring_char(0, k);
    let rest = i.substring_char(k, n);
    Ok((rest, sym))
}

/// Parse a symbol and skip the whitespace after it.
pub fn symbol_token<'a>(i: &'a str) -> (r: IResult<&'a str, &'a str>)
    ensures
        r is Ok <==> matches_symbol(i@),
        (r matches Ok((rest, sym)) ==> sym@ == i@.subrange(0, sym_len(i@)) && rest@ == i@.skip(
            symbol_token_end(i@),
        )),
        (r matches Err(e) ==> e.input == i && (e.reason matches Reason::Return(m) && m@
            == "expected symbol"@)),
{
    match symbol(i) {
        Ok((rest0, sym)) => {
            let rest = skip_spaces(rest0);
            proof {
                lemma_scan_len_bounds(i@, |c: char| spec_is_symbol_char(c));
                lemma_scan_len_bounds(rest0@, |c: char| spec_is_space(c));
                assert(rest@ =~= i@.skip(symbol_token_end(i@)));
            }
            Ok((rest, sym))
        },
        Err(e) => Err(e),
    }
}

/// A specific single character can be parsed here.
pub open spec fn matches_char(s: Seq<char>, c: char) -> bool {
    s.len() > 0 && s[0] == c
}

/// Characters consumed by a character token: the character and the
/// whitespace after it.
pub open spec fn char_token_end(s: Seq<char>) -> int {
    1 + space_len(s.skip(1))
}

/// Parse the specific character `c` and skip the whitespace after it.
pub fn char_token<'a>(c: char, i: &'a str) -> (r: IResult<&'a str, char>)
    ensures
        r is Ok <==> matches_char(i@, c),
        (r matches Ok((rest, out)) ==> out == c && rest@ == i@.skip(char_token_end(i@))),
        (r matches Err(e) ==> e.input == i && (e.reason matches Reason::Return(m) && m@
            == "expected character"@)),
{
    let n = i.unicode_len();
    if n == 0 || i.get_char(0) != c {
        return ParseError::make_return(i, "expected character".to_string());
    }
    let rest0 = i.substring_char(1, n);
    let rest = skip_spaces(rest0);
    proof {
        lemma_scan_len_bounds(rest0@, |c: char| spec_is_space(c));
        assert(rest@ =~= i@.skip(char_token_end(i@)));
    }
    Ok((rest, c))
}

/// A specific string of characters starts here.
pub open spec fn matches_tag(s: Seq<char>, t: Seq<char>) -> bool {
    s.len() >= t.len() && s.subrange(0, t.len() as int) == t
}

/// Characters consumed by a tag token: the tag and the whitespace after it.
pub open spec fn tag_token_end(s: Seq<char>, t: Seq<char>) -> int {
    t.len() + space_len(s.skip(t.len() as int))
}

/// Parse the specific string `t` and skip the whitespace after it.
pub fn tag_token<'a>(t: &'static str, i: &'a str) -> (r: IResult<&'a str, &'a str>)
    ensures
        r is Ok <==> matches_tag(i@, t@),
        (r matches Ok((rest, out)) ==> out@ == t@ && rest@ == i@.skip(tag_token_end(i@, t@))),
        (r matches Err(e) ==> e.input == i && (e.reason matches Reason::Return(m) && m@
            == "expected tag"@)),
{
    let tn = t.unicode_len();
    let n = i.unicode_len();
    if n < tn {
        return ParseError::make_return(i, "expected tag".to_string());
    }
    let pre = i.substring_char(0, tn);
    if !crate::utils::str_eq(pre, t) {
        return ParseError::make_return(i, "expected tag".to_string());
    }
    let rest0 = i.substring_char(tn, n);
    let rest = skip_spaces(rest0);
    proof {
        lemma_scan_len_bounds(rest0@, |c: char| spec_is_space(c));
        assert(rest@ =~= i@.skip(tag_token_end(i@, t@)));
    }
    Ok((rest, pre))
}

/// A field — definition symbol, count mark, name symbol — starts here.
pub open spec fn matches_field(s: Seq<char>) -> bool {
    &&& matches_symbol(s)
    &&& {
        let b = symbol_token_end(s);
        &&& b < s.len()
        &&& (s[b] == '*' || s[b] == '?')
        &&& matches_symbol(s.skip(b + 1))
    }
}

/// Characters consumed by a field.
pub open spec fn field_end(s: Seq<char>) -> int {
    let b = symbol_token_end(s);
    b + 1 + symbol_token_end(s.skip(b + 1))
}

/// The definition symbol of the field that starts here.
pub open spec fn field_definition(s: Seq<char>) -> Seq<char> {
    s.subrange(0, sym_len(s))
}

/// The name symbol of the field that starts here.
pub open spec fn field_name(s: Seq<char>) -> Seq<char> {
    let t = s.skip(symbol_token_end(s) + 1);
    t.subrange(0, sym_len(t))
}

pub proof fn lemma_symbol_token_end_bounds(s: Seq<char>)
    ensures
        0 <= symbol_token_end(s) <= s.len(),
        matches_symbol(s) ==> 1 <= symbol_token_end(s),
{
    lemma_scan_len_bounds(s, |c: char| spec_is_symbol_char(c));
    lemma_scan_len_bounds(s.skip(sym_len(s)), |c: char| spec_is_space(c));
}

pub proof fn lemma_char_token_end_bounds(s: Seq<char>)
    requires
        s.len() >= 1,
    ensures
        1 <= char_token_end(s) <= s.len(),
{
    lemma_scan_len_bounds(s.skip(1), |c: char| spec_is_space(c));
}

pub proof fn lemma_field_end_bounds(s: Seq<char>)
    requires
        matches_field(s),
    ensures
        1 <= field_end(s) <= s.len(),
{
    let b = symbol_token_end(s);
    lemma_symbol_token_end_bounds(s);
    lemma_symbol_token_end_bounds(s.skip(b + 1));
}

/// Parse one field: its definition symbol, a `*` or `?` count mark, and
/// its name.  The count mark is read but the field is always recorded with
/// count One.
pub fn parse_field<'a>(i: &'a str) -> (r: IResult<&'a str, Field<'a>>)
    ensures
        r is Ok <==> matches_field(i@),
        (r matches Ok((rest, f)) ==> f.definition@ == field_definition(i@) && f.name@ == field_name(
            i@,
        ) && f.count == Count::One && rest@ == i@.skip(field_end(i@))),
        (r matches Err(e) ==> (e.reason matches Reason::Return(_))),
{
    let (i1, definition) = match symbol_token(i) {
        Ok(v) => v,
        Err(e) => {
            return Err(e);
        },
    };
    proof {
        lemma_symbol_token_end_bounds(i@);
    }
    let n1 = i1.unicode_len();
    let count_ok = n1 > 0 && { let cm = i1.get_char(0); cm == '*' || cm == '?' };
    if !count_ok {
        return ParseError::make_return(i1, "expected count".to_string());
    }
    let i2 = i1.substring_char(1, n1);
    proof {
        assert(i2@ =~= i@.skip(symbol_token_end(i@) + 1));
    }
    let (i3, name) = match symbol_token(i2) {
        Ok(v) => v,
        Err(e) => {
            return Err(e);
        },
    };
    proof {
        lemma_symbol_token_end_bounds(i2@);
        assert(i3@ =~= i@.skip(field_end(i@)));
    }
    Ok((i3, Field { name, definition, count: Count::One }))
}

/// Where the trailing `", " field` repetitions that begin at position `p`
/// end.
pub open spec fn more_fields_end(s: Seq<char>, p: int) -> int
    decreases s.len() - p,
{
    if 0 <= p && p + 2 <= s.len() && s[p] == ',' && s[p + 1] == ' ' && matches_field(s.skip(p + 2)) {
        let e = p + 2 + field_end(s.skip(p + 2));
        if p < e && e <= s.len() {
            more_fields_end(s, e)
        } else {
            p
        }
    } else {
        p
    }
}

/// The `(definition, name)` pairs of the trailing `", " field` repetitions
/// that begin at position `p`.
pub open spec fn more_fields(s: Seq<char>, p: int) -> Seq<(Seq<char>, Seq<char>)>
    decreases s.len() - p,
{
    if 0 <= p && p + 2 <= s.len() && s[p] == ',' && s[p + 1] == ' ' && matches_field(s.skip(p + 2)) {
        let e = p + 2 + field_end(s.skip(p + 2));
        if p < e && e <= s.len() {
            seq![(field_definition(s.skip(p + 2)), field_name(s.skip(p + 2)))] + more_fields(s, e)
        } else {
            seq![]
        }
    } else {
        seq![]
    }
}

pub proof fn lemma_more_fields_end_bounds(s: Seq<char>, p: int)
    requires
        0 <= p <= s.len(),
    ensures
        p <= more_fields_end(s, p) <= s.len(),
        more_fields(s, p).len() >= 0,
    decreases s.len() - p,
{
    if 0 <= p && p + 2 <= s.len() && s[p] == ',' && s[p + 1] == ' ' && matches_field(s.skip(p + 2)) {
        let e = p + 2 + field_end(s.skip(p + 2));
        if p < e && e <= s.len() {
            lemma_more_fields_end_bounds(s, e);
        }
    }
}

/// Position of the first field inside the parentheses.
pub open spec fn first_field_pos(s: Seq<char>) -> int {
    char_token_end(s)
}

/// Position just after the first field.
pub open spec fn after_first_field(s: Seq<char>) -> int {
    first_field_pos(s) + field_end(s.skip(first_field_pos(s)))
}

/// A parenthesised, comma-separated, non-empty field list starts here.
pub open spec fn matches_fields(s: Seq<char>) -> bool {
    &&& matches_char(s, '(')
    &&& matches_field(s.skip(first_field_pos(s)))
    &&& matches_char(s.skip(more_fields_end(s, after_first_field(s))), ')')
}

/// Characters consumed by a field list.
pub open spec fn fields_end(s: Seq<char>) -> int {
    let p3 = more_fields_end(s, after_first_field(s));
    p3 + char_token_end(s.skip(p3))
}

/// All `(definition, name)` pairs of the field list that starts here.
pub open spec fn all_fields(s: Seq<char>) -> Seq<(Seq<char>, Seq<char>)> {
    let p1 = first_field_pos(s);
    seq![(field_definition(s.skip(p1)), field_name(s.skip(p1)))] + more_fields(
        s,
        after_first_field(s),
    )
}

/// The parsed fields `fs` carry exactly the `(definition, name)` pairs in
/// `pairs`, each with count One.
pub open spec fn fields_pairs_ok<'a>(fs: Seq<Field<'a>>, pairs: Seq<(Seq<char>, Seq<char>)>) -> bool {
    &&& fs.len() == pairs.len()
    &&& forall|t: int|
        0 <= t < fs.len() ==> (#[trigger] fs[t]).definition@ == pairs[t].0 && fs[t].name@
            == pairs[t].1 && fs[t].count == Count::One
}

pub proof fn lemma_matches_fields_end(s: Seq<char>)
    requires
        matches_fields(s),
    ensures
        1 <= fields_end(s) <= s.len(),
{
    lemma_char_token_end_bounds(s);
    let p1 = first_field_pos(s);
    lemma_field_end_bounds(s.skip(p1));
    lemma_more_fields_end_bounds(s, after_first_field(s));
    let p3 = more_fields_end(s, after_first_field(s));
    lemma_char_token_end_bounds(s.skip(p3));
}

/// Parse a parenthesised, comma-separated, non-empty field list.
pub fn parse_fields<'a>(i: &'a str) -> (r: IResult<&'a str, Fields<'a>>)
    ensures
        r is Ok <==> matches_fields(i@),
        (r matches Ok((rest, fs)) ==> fields_pairs_ok(fs@, all_fields(i@)) && rest@ == i@.skip(
            fields_end(i@),
        )),
        (r matches Err(e) ==> (e.reason matches Reason::Return(_))),
{
    let (i1, _) = match char_token('(', i) {
        Ok(v) => v,
        Err(e) => {
            return Err(e);
        },
    };
    proof {
        lemma_char_token_end_bounds(i@);
    }
    let (first_rest, f0) = match parse_field(i1) {
        Ok(v) => v,
        Err(e) => {
            return Err(e);
        },
    };
    proof {
        lemma_field_end_bounds(i1@);
        assert(first_rest@ =~= i@.skip(after_first_field(i@)));
    }
    let ghost p2 = after_first_field(i@);
    let mut fields: Vec<Field<'a>> = Vec::new();
    fields.push(f0);
    let mut cur = first_rest;
    let ghost mut q: int = p2;
    let mut going = true;
    while going
        invariant
            0 <= p2 <= q <= i@.len(),
            cur@ == i@.skip(q),
            fields@.len() >= 1,
            fields@[0].definition@ == field_definition(i@.skip(first_field_pos(i@))),
            fields@[0].name@ == field_name(i@.skip(first_field_pos(i@))),
            fields@[0].count == Count::One,
            fields_pairs_ok(fields@.skip(1), more_fields(i@, p2).take(fields@.len() - 1)),
            more_fields(i@, p2) =~= more_fields(i@, p2).take(fields@.len() - 1) + more_fields(
                i@,
                q,
            ),
            more_fields_end(i@, p2) == more_fields_end(i@, q),
            !going ==> more_fields_end(i@, q) == q,
            !going ==> more_fields(i@, q) =~= Seq::<(Seq<char>, Seq<char>)>::empty(),
        decreases i@.len() - q + (if going {
            1int
        } else {
            0int
        }),
    {
        let n = cur.unicode_len();
        let sep_ok = n >= 2 && cur.get_char(0) == ',' && cur.get_char(1) == ' ';
        if sep_ok {
            let after_sep = cur.substring_char(2, n);
            proof {
                assert(after_sep@ =~= i@.skip(q + 2));
            }
            match parse_field(after_sep) {
                Ok((nxt, f)) => {
                    proof {
                        lemma_field_end_bounds(after_sep@);
                        assert(nxt@ =~= i@.skip(q + 2 + field_end(i@.skip(q + 2))));
                        assert(more_fields(i@, q) =~= seq![
                            (field_definition(i@.skip(q + 2)), field_name(i@.skip(q + 2))),
                        ] + more_fields(i@, q + 2 + field_end(i@.skip(q + 2))));
                        assert(more_fields_end(i@, q) == more_fields_end(
                            i@,
                            q + 2 + field_end(i@.skip(q + 2)),
                        ));
                    }
                    let ghost old_fields = fields@;
                    let ghost pair = (field_definition(i@.skip(q + 2)), field_name(i@.skip(q + 2)));
                    fields.push(f);
                    cur = nxt;
                    proof {
                        let e = q + 2 + field_end(i@.skip(q + 2));
                        let all = more_fields(i@, p2);
                        assert(fields@.skip(1) =~= old_fields.skip(1) + seq![f]);
                        assert(all =~= all.take(old_fields.len() - 1) + (seq![pair] + more_fields(
                            i@,
                            e,
                        )));
                        assert(all.take(fields@.len() - 1) =~= all.take(old_fields.len() - 1)
                            + seq![pair]);
                        assert(fields_pairs_ok(fields@.skip(1), all.take(fields@.len() - 1))) by {
                            assert forall|t: int| 0 <= t < fields@.skip(1).len() implies (
                            #[trigger] fields@.skip(1)[t]).definition@ == all.take(
                                fields@.len() - 1,
                            )[t].0 && fields@.skip(1)[t].name@ == all.take(fields@.len() - 1)[t].1
                                && fields@.skip(1)[t].count == Count::One by {
                                if t < old_fields.len() - 1 {
                                    assert(fields@.skip(1)[t] == old_fields.skip(1)[t]);
                                } else {
                                    assert(fields@.skip(1)[t] == f);
                                }
                            }
                        };
                        q = e;
                        assert(all =~= all.take(fields@.len() - 1) + more_fields(i@, q));
                    }
                },
                Err(_) => {
                    going = false;
                },
            }
        } else {
            going = false;
        }
    }
    proof {
        assert(more_fields(i@, p2).take(fields@.len() - 1) =~= more_fields(i@, p2));
    }
    match char_token(')', cur) {
        Ok((rest, _)) => {
            proof {
                lemma_char_token_end_bounds(cur@);
                assert(rest@ =~= i@.skip(fields_end(i@)));
                assert(fields_pairs_ok(fields@, all_fields(i@))) by {
                    let all = all_fields(i@);
                    assert(all =~= seq![
                        (
                            field_definition(i@.skip(first_field_pos(i@))),
                            field_name(i@.skip(first_field_pos(i@))),
                        ),
                    ] + more_fields(i@, p2));
                    assert forall|t: int| 0 <= t < fields@.len() implies (
                    #[trigger] fields@[t]).definition@ == all[t].0 && fields@[t].name@ == all[t].1
                        && fields@[t].count == Count::One by {
                        if t >= 1 {
                            assert(fields@[t] == fields@.skip(1)[t - 1]);
                            assert(all[t] == more_fields(i@, p2)[t - 1]);
                            assert(more_fields(i@, p2)[t - 1] == more_fields(i@, p2).take(
                                fields@.len() - 1,
                            )[t - 1]);
                        }
                    }
                };
            }
            Ok((rest, fields))
        },
        Err(e) => Err(e),
    }
}

/// Parse a product type: a field list.  Attributes are not parsed and stay
/// empty.
pub fn parse_product<'a>(i: &'a str) -> (r: IResult<&'a str, Type<'a>>)
    ensures
        r is Ok <==> matches_fields(i@),
        (r matches Ok((rest, ty)) ==> (ty matches Type::Product { fields, attributes }
            && fields_pairs_ok(fields@, all_fields(i@)) && attributes@.len() == 0) && rest@
            == i@.skip(fields_end(i@))),
        (r matches Err(e) ==> (e.reason matches Reason::Return(_))),
{
    let (rest, fields) = match parse_fields(i) {
        Ok(v) => v,
        Err(e) => {
            return Err(e);
        },
    };
    Ok((rest, Type::Product { fields, attributes: vec![] }))
}

/// Position of the field list of a definition.
pub open spec fn def_fields_pos(s: Seq<char>) -> int {
    let b = symbol_token_end(s);
    b + char_token_end(s.skip(b))
}

/// A definition — name, `=`, product type — starts here.
pub open spec fn matches_definition(s: Seq<char>) -> bool {
    &&& matches_symbol(s)
    &&& matches_char(s.skip(symbol_token_end(s)), '=')
    &&& matches_fields(s.skip(def_fields_pos(s)))
}

/// Characters consumed by a definition.
pub open spec fn definition_end(s: Seq<char>) -> int {
    def_fields_pos(s) + fields_end(s.skip(def_fields_pos(s)))
}

pub proof fn lemma_definition_end_bounds(s: Seq<char>)
    requires
        matches_definition(s),
    ensures
        1 <= definition_end(s) <= s.len(),
        0 <= def_fields_pos(s) <= s.len(),
{
    let b = symbol_token_end(s);
    lemma_symbol_token_end_bounds(s);
    lemma_char_token_end_bounds(s.skip(b));
    lemma_matches_fields_end(s.skip(def_fields_pos(s)));
}

/// Parse one definition: `name = product`.
pub fn parse_definition<'a>(i: &'a str) -> (r: IResult<&'a str, Definition<'a>>)
    ensures
        r is Ok <==> matches_definition(i@),
        (r matches Ok((rest, d)) ==> d.name@ == i@.subrange(0, sym_len(i@)) && (d.value
            matches Type::Product { fields, attributes } && fields_pairs_ok(
            fields@,
            all_fields(i@.skip(def_fields_pos(i@))),
        ) && attributes@.len() == 0) && rest@ == i@.skip(definition_end(i@))),
        (r matches Err(e) ==> (e.reason matches Reason::Return(_))),
{
    let (i1, name) = match symbol_token(i) {
        Ok(v) => v,
        Err(e) => {
            return Err(e);
        },
    };
    proof {
        lemma_symbol_token_end_bounds(i@);
    }
    let (i2, _) = match char_token('=', i1) {
        Ok(v) => v,
        Err(e) => {
            return Err(e);
        },
    };
    proof {
        lemma_char_token_end_bounds(i1@);
        assert(i2@ =~= i@.skip(def_fields_pos(i@)));
    }
    let (i3, value) = match parse_product(i2) {
        Ok(v) => v,
        Err(e) => {
            return Err(e);
        },
    };
    proof {
        lemma_matches_fields_end(i2@);
        assert(i3@ =~= i@.skip(definition_end(i@)));
    }
    Ok((i3, Definition { name, value }))
}

/// Position just after the `module` keyword.
pub open spec fn module_kw_end(s: Seq<char>) -> int {
    space_len(s) + "module"@.len()
}

/// Position of the module's name.
pub open spec fn module_name_pos(s: Seq<char>) -> int {
    let k = module_kw_end(s);
    k + space_len(s.skip(k))
}

/// Position of the opening brace.
pub open spec fn module_brace_pos(s: Seq<char>) -> int {
    let np = module_name_pos(s);
    np + symbol_token_end(s.skip(np))
}

/// Position of the first definition.
pub open spec fn module_defs_pos(s: Seq<char>) -> int {
    let bp = module_brace_pos(s);
    bp + char_token_end(s.skip(bp))
}

/// Where the run of definitions that begins at position `p` ends.
pub open spec fn defs_end(s: Seq<char>, p: int) -> int
    decreases s.len() - p,
{
    if 0 <= p && p <= s.len() && matches_definition(s.skip(p)) {
        let e = p + definition_end(s.skip(p));
        if p < e && e <= s.len() {
            defs_end(s, e)
        } else {
            p
        }
    } else {
        p
    }
}

/// The `(name, fields)` values of the run of definitions that begins at
/// position `p`.
pub open spec fn def_values(s: Seq<char>, p: int) -> Seq<(Seq<char>, Seq<(Seq<char>, Seq<char>)>)>
    decreases s.len() - p,
{
    if 0 <= p && p <= s.len() && matches_definition(s.skip(p)) {
        let e = p + definition_end(s.skip(p));
        if p < e && e <= s.len() {
            seq![
                (
                    s.skip(p).subrange(0, sym_len(s.skip(p))),
                    all_fields(s.skip(p + def_fields_pos(s.skip(p)))),
                ),
            ] + def_values(s, e)
        } else {
            seq![]
        }
    } else {
        seq![]
    }
}

pub proof fn lemma_defs_end_bounds(s: Seq<char>, p: int)
    requires
        0 <= p <= s.len(),
    ensures
        p <= defs_end(s, p) <= s.len(),
    decreases s.len() - p,
{
    if matches_definition(s.skip(p)) {
        let e = p + definition_end(s.skip(p));
        if p < e && e <= s.len() {
            lemma_defs_end_bounds(s, e);
        }
    }
}

/// Position of the closing brace.
pub open spec fn module_close_pos(s: Seq<char>) -> int {
    defs_end(s, module_defs_pos(s))
}

/// Characters consumed by a whole module.
pub open spec fn module_end(s: Seq<char>) -> int {
    let cp = module_close_pos(s);
    cp + char_token_end(s.skip(cp))
}

/// A module — the `module` keyword, a name, and braced definitions —
/// starts here, after leading whitespace.
pub open spec fn matches_module(s: Seq<char>) -> bool {
    &&& matches_tag(s.skip(space_len(s)), "module"@)
    &&& {
        let k = module_kw_end(s);
        0 <= k < s.len() && spec_is_space(s[k])
    }
    &&& matches_symbol(s.skip(module_name_pos(s)))
    &&& matches_char(s.skip(module_brace_pos(s)), '{')
    &&& matches_char(s.skip(module_close_pos(s)), '}')
}

/// The parsed definitions `ds` carry exactly the `(name, fields)` values in
/// `vals`, each a product with empty attributes.
pub open spec fn defs_values_ok<'a>(
    ds: Seq<Definition<'a>>,
    vals: Seq<(Seq<char>, Seq<(Seq<char>, Seq<char>)>)>,
) -> bool {
    &&& ds.len() == vals.len()
    &&& forall|t: int|
        0 <= t < ds.len() ==> (#[trigger] ds[t]).name@ == vals[t].0 && (ds[t].value
            matches Type::Product { fields, attributes } && fields_pairs_ok(fields@, vals[t].1)
            && attributes@.len() == 0)
}

/// Parse a whole module: `module Name { definitions }`.
pub fn parse_module<'a>(i: &'a str) -> (r: IResult<&'a str, Module<'a>>)
    ensures
        r is Ok <==> matches_module(i@),
        (r matches Ok((rest, m)) ==> m.name@ == i@.skip(module_name_pos(i@)).subrange(
            0,
            sym_len(i@.skip(module_name_pos(i@))),
        ) && defs_values_ok(m.definitions@, def_values(i@, module_defs_pos(i@))) && rest@ == i@.skip(
            module_end(i@),
        )),
        (r matches Err(e) ==> (e.reason matches Reason::Return(_))),
{
    let i0 = skip_spaces(i);
    proof {
        lemma_scan_len_bounds(i@, |c: char| spec_is_space(c));
    }
    let n0 = i0.unicode_len();
    let kwlen = "module".unicode_len();
    if n0 < kwlen {
        return ParseError::make_return(i0, "expected tag".to_string());
    }
    let kw = i0.substring_char(0, kwlen);
    if !crate::utils::str_eq(kw, "module") {
        return ParseError::make_return(i0, "expected tag".to_string());
    }
    let after_kw = i0.substring_char(kwlen, n0);
    proof {
        assert(after_kw@ =~= i@.skip(module_kw_end(i@)));
    }
    let n_kw = after_kw.unicode_len();
    if n_kw == 0 || !is_space(after_kw.get_char(0)) {
        return ParseError::make_return(after_kw, "expected whitespace".to_string());
    }
    let i1 = skip_spaces(after_kw);
    proof {
        lemma_scan_len_bounds(after_kw@, |c: char| spec_is_space(c));
        assert(i1@ =~= i@.skip(module_name_pos(i@)));
    }
    let (i2, name) = match symbol_token(i1) {
        Ok(v) => v,
        Err(e) => {
            return Err(e);
        },
    };
    proof {
        lemma_symbol_token_end_bounds(i1@);
        assert(i2@ =~= i@.skip(module_brace_pos(i@)));
    }
    let (i3, _) = match char_token('{', i2) {
        Ok(v) => v,
        Err(e) => {
            return Err(e);
        },
    };
    proof {
        lemma_char_token_end_bounds(i2@);
        assert(i3@ =~= i@.skip(module_defs_pos(i@)));
    }
    let ghost dp = module_defs_pos(i@);
    let mut cur = i3;
    let ghost mut q: int = dp;
    let mut definitions: Vec<Definition<'a>> = Vec::new();
    let mut going = true;
    while going
        invariant
            0 <= dp <= q <= i@.len(),
            cur@ == i@.skip(q),
            defs_values_ok(definitions@, def_values(i@, dp).take(definitions@.len() as int)),
            def_values(i@, dp) =~= def_values(i@, dp).take(definitions@.len() as int) + def_values(
                i@,
                q,
            ),
            defs_end(i@, dp) == defs_end(i@, q),
            !going ==> defs_end(i@, q) == q,
            !going ==> def_values(i@, q) =~= Seq::<(Seq<char>, Seq<(Seq<char>, Seq<char>)>)>::empty(),
        decreases i@.len() - q + (if going {
            1int
        } else {
            0int
        }),
    {
        match parse_definition(cur) {
            Ok((nxt, d)) => {
                proof {
                    lemma_definition_end_bounds(cur@);
                    assert(nxt@ =~= i@.skip(q + definition_end(i@.skip(q))));
                }
                let ghost old_defs = definitions@;
                let ghost val = (
                    i@.skip(q).subrange(0, sym_len(i@.skip(q))),
                    all_fields(i@.skip(q + def_fields_pos(i@.skip(q)))),
                );
                definitions.push(d);
                cur = nxt;
                proof {
                    let e = q + definition_end(i@.skip(q));
                    let all = def_values(i@, dp);
                    lemma_definition_end_bounds(i@.skip(q));
                    assert(i@.skip(q).skip(def_fields_pos(i@.skip(q))) =~= i@.skip(
                        q + def_fields_pos(i@.skip(q)),
                    ));
                    assert(def_values(i@, q) =~= seq![val] + def_values(i@, e));
                    assert(defs_end(i@, q) == defs_end(i@, e));
                    assert(all =~= all.take(old_defs.len() as int) + (seq![val] + def_values(
                        i@,
                        e,
                    )));
                    assert(all.take(definitions@.len() as int) =~= all.take(old_defs.len() as int)
                        + seq![val]);
                    assert(defs_values_ok(definitions@, all.take(definitions@.len() as int))) by {
                        assert forall|t: int| 0 <= t < definitions@.len() implies (
                        #[trigger] definitions@[t]).name@ == all.take(definitions@.len() as int)[t].0
                            && (definitions@[t].value matches Type::Product { fields, attributes }
                            && fields_pairs_ok(
                            fields@,
                            all.take(definitions@.len() as int)[t].1,
                        ) && attributes@.len() == 0) by {
                            if t < old_defs.len() {
                                assert(definitions@[t] == old_defs[t]);
                                assert(all.take(definitions@.len() as int)[t] == all.take(
                                    old_defs.len() as int,
                                )[t]);
                            } else {
                                assert(definitions@[t] == d);
                            }
                        }
                    };
                    q = e;
                    assert(all =~= all.take(definitions@.len() as int) + def_values(i@, q));
                }
            },
            Err(_) => {
                going = false;
            },
        }
    }
    match char_token('}', cur) {
        Ok((rest, _)) => {
            proof {
                lemma_char_token_end_bounds(cur@);
                assert(rest@ =~= i@.skip(module_end(i@)));
                assert(def_values(i@, dp).take(definitions@.len() as int) =~= def_values(i@, dp));
            }
            Ok((rest, Module { name, definitions }))
        },
        Err(e) => Err(e),
    }
}

} // verus!
