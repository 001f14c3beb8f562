//! The sequence abstraction: a capability interface over any sliceable,
//! indexable input, so the same combinators work on raw text and on
//! already-tokenized streams.
//!
//! Positions handed out and accepted by these methods count items (for
//! strings: characters, never bytes), so a position produced by one method
//! is always safe to pass to another.

use vstd::prelude::*;

verus! {

use vstd::string::StrSliceExecFns;

/// Rendering of a character by the standard `Debug` formatter; the result
/// depends on the character alone.
pub uninterp spec fn char_debug(c: char) -> Seq<char>;

pub trait Input: Sized {
    type Item: Copy;

    /// The items that remain in this input, in order.
    spec fn contents(&self) -> Seq<Self::Item>;

    /// The message reported when `e` was expected but not found.
    spec fn expected_item_msg(e: Self::Item) -> Seq<char>;

    /// Decide equality of two items, exactly.
    fn item_eq(a: &Self::Item, b: &Self::Item) -> (r: bool)
        ensures
            r == (a == b),
    ;

    /// Render the message reported when `e` was expected but not found.
    fn format_expected(e: &Self::Item) -> (r: String)
        ensures
            r@ == Self::expected_item_msg(*e),
    ;

    /// All elements of the input together with their positions.
    fn iter_indices(&self) -> (r: Vec<(usize, Self::Item)>)
        ensures
            r@.len() == self.contents().len(),
            forall|j: int| 0 <= j < r@.len() ==> r@[j] == (j as usize, self.contents()[j]),
    ;

    /// All elements of the input, in order.
    fn iter_elements(&self) -> (r: Vec<Self::Item>)
        ensures
            r@ == self.contents(),
    ;

    /// The element at position `n`.
    fn item_at(&self, n: usize) -> (r: Self::Item)
        requires
            n < self.contents().len(),
        ensures
            r == self.contents()[n as int],
    ;

    /// Position of the first element matched by `predicate`, scanning
    /// forward.
    fn position<P: Fn(Self::Item) -> bool>(&self, predicate: P) -> (r: Option<usize>)
        requires
            forall|j: int| 0 <= j < self.contents().len() ==> call_requires(
                predicate,
                (self.contents()[j],),
            ),
        ensures
            (r matches Some(i) ==> i < self.contents().len() && call_ensures(
                predicate,
                (self.contents()[i as int],),
                true,
            ) && forall|j: int|
                0 <= j < i ==> call_ensures(predicate, (self.contents()[j],), false)),
            (r is None ==> forall|j: int|
                0 <= j < self.contents().len() ==> call_ensures(
                    predicate,
                    (self.contents()[j],),
                    false,
                )),
    ;

    /// The position just after the `n`-th element: `n` itself while at
    /// least `n` elements remain, absent otherwise.
    fn slice_index(&self, n: usize) -> (r: Option<usize>)
        ensures
            n <= self.contents().len() ==> r == Some(n),
            n > self.contents().len() ==> r is None,
    ;

    /// The initial elements of the input up to but not including position
    /// `i`.
    fn take_first(&self, i: usize) -> (r: Self)
        requires
            i <= self.contents().len(),
        ensures
            r.contents() == self.contents().subrange(0, i as int),
    ;

    /// The remaining elements of the input beginning at position `i`.
    fn take_last(&self, i: usize) -> (r: Self)
        requires
            i <= self.contents().len(),
        ensures
            r.contents() == self.contents().subrange(i as int, self.contents().len() as int),
    ;

    /// Split at position `i` into a result-like tuple, remaining items
    /// first, initial items last.
    fn take_split(&self, i: usize) -> (r: (Self, Self))
        requires
            i <= self.contents().len(),
        ensures
            r.0.contents() == self.contents().subrange(i as int, self.contents().len() as int),
            r.1.contents() == self.contents().subrange(0, i as int),
    {
        (self.take_last(i), self.take_first(i))
    }

    /// The number of remaining elements.
    fn input_len(&self) -> (r: usize)
        ensures
            r == self.contents().len(),
    ;
}

/// Relies on `core::fmt::Debug` for `char`: the rendering depends on the
/// character alone.
#[verifier::external_body]
pub(crate) fn fmt_expected_char(c: char) -> (r: String)
    ensures
        r@ == "expected "@ + char_debug(c),
{
    format!("expected {:?}", c)
}

impl<'a> Input for &'a str {
    type Item = char;

    open spec fn contents(&self) -> Seq<char> {
        (*self)@
    }

    open spec fn expected_item_msg(e: char) -> Seq<char> {
        "expected "@ + char_debug(e)
    }

    fn item_eq(a: &char, b: &char) -> (r: bool) {
        *a == *b
    }

    fn format_expected(e: &char) -> (r: String) {
        fmt_expected_char(*e)
    }

    fn iter_indices(&self) -> (r: Vec<(usize, char)>) {
        let n = self.unicode_len();
        let mut r: Vec<(usize, char)> = Vec::new();
        let mut j: usize = 0;
        while j < n
            invariant
                j <= n,
                n == (*self)@.len(),
                r@.len() == j,
                forall|t: int| 0 <= t < j ==> r@[t] == (t as usize, (*self)@[t]),
            decreases n - j,
        {
            let c = self.get_char(j);
            r.push((j, c));
            j = j + 1;
        }
        r
    }

    fn iter_elements(&self) -> (r: Vec<char>) {
        let n = self.unicode_len();
        let mut r: Vec<char> = Vec::new();
        let mut j: usize = 0;
        while j < n
            invariant
                j <= n,
                n == (*self)@.len(),
                r@.len() == j,
                forall|t: int| 0 <= t < j ==> r@[t] == (*self)@[t],
            decreases n - j,
        {
            let c = self.get_char(j);
            r.push(c);
            j = j + 1;
        }
        proof {
            assert(r@ =~= (*self)@);
        }
        r
    }

    fn item_at(&self, n: usize) -> (r: char) {
        self.get_char(n)
    }

    fn position<P: Fn(char) -> bool>(&self, predicate: P) -> (r: Option<usize>) {
        let n = self.unicode_len();
        let mut j: usize = 0;
        while j < n
            invariant
                j <= n,
                n == (*self)@.len(),
                forall|t: int| 0 <= t < self.contents().len() ==> call_requires(
                    predicate,
                    (self.contents()[t],),
                ),
                forall|t: int| 0 <= t < j ==> call_ensures(predicate, (self.contents()[t],), false),
            decreases n - j,
        {
            let c = self.get_char(j);
            proof {
                assert(call_requires(predicate, (self.contents()[j as int],)));
            }
            if predicate(c) {
                return Some(j);
            }
            j = j + 1;
        }
        None
    }

    fn slice_index(&self, n: usize) -> (r: Option<usize>) {
        if n <= self.unicode_len() {
            Some(n)
        } else {
            None
        }
    }

    fn take_first(&self, i: usize) -> (r: &'a str) {
        self.substring_char(0, i)
    }

    fn take_last(&self, i: usize) -> (r: &'a str) {
        let n = self.unicode_len();
        self.substring_char(i, n)
    }

    fn input_len(&self) -> (r: usize) {
        self.unicode_len()
    }
}

} // verus!
