//! Small, verified building blocks for the texts the games and the
//! session layer produce: characters of a string, decimal numbers,
//! separators.

use itertools::Itertools;
use vstd::prelude::*;

verus! {

/// Appends one character; wraps `String::push`, which the standard
/// library documents as appending the given `char` to the end of the string.
#[verifier::external_body]
pub(crate) fn push_char(s: &mut String, c: char)
    ensures
        final(s)@ == old(s)@.push(c),
{
    s.push(c)
}

/// The characters of `s`, in order.
pub fn chars_of(s: &str) -> (r: Vec<char>)
    ensures
        r@ == s@,
{
    let n = s.unicode_len();
    let mut out: Vec<char> = Vec::new();
    let mut i: usize = 0;
    while i < n
        invariant
            n == s@.len(),
            i <= n,
            out@ == s@.subrange(0, i as int),
        decreases n - i,
    {
        out.push(s.get_char(i));
        i = i + 1;
        assert(out@ =~= s@.subrange(0, i as int));
    }
    assert(s@.subrange(0, n as int) =~= s@);
    out
}

/// The string made of `chars[from..to]`.
pub fn string_of_range(chars: &Vec<char>, from: usize, to: usize) -> (r: String)
    requires
        from <= to <= chars.len(),
    ensures
        r@ == chars@.subrange(from as int, to as int),
{
    let mut out = String::new();
    let mut i: usize = from;
    while i < to
        invariant
            from <= i <= to <= chars.len(),
            out@ == chars@.subrange(from as int, i as int),
        decreases to - i,
    {
        push_char(&mut out, chars[i]);
        i = i + 1;
        assert(out@ =~= chars@.subrange(from as int, i as int));
    }
    out
}

/// Whether two string slices hold the same characters.
pub fn same_text(a: &str, b: &str) -> (r: bool)
    ensures
        r == (a@ == b@),
{
    let x = chars_of(a);
    let y = chars_of(b);
    if x.len() != y.len() {
        return false;
    }
    let mut i: usize = 0;
    while i < x.len()
        invariant
            x@ == a@,
            y@ == b@,
            x.len() == y.len(),
            i <= x.len(),
            x@.subrange(0, i as int) == y@.subrange(0, i as int),
        decreases x.len() - i,
    {
        if x[i] != y[i] {
            assert(a@[i as int] != b@[i as int]);
            return false;
        }
        i = i + 1;
        assert(x@.subrange(0, i as int) =~= x@.subrange(0, i - 1).push(x@[i - 1]));
        assert(y@.subrange(0, i as int) =~= y@.subrange(0, i - 1).push(y@[i - 1]));
    }
    assert(x@ =~= x@.subrange(0, x.len() as int));
    assert(y@ =~= y@.subrange(0, y.len() as int));
    true
}

/// The character that writes the digit `d`.
pub open spec fn digit_char(d: nat) -> char
    recommends
        d < 10,
{
    if d == 0 {
        '0'
    } else if d == 1 {
        '1'
    } else if d == 2 {
        '2'
    } else if d == 3 {
        '3'
    } else if d == 4 {
        '4'
    } else if d == 5 {
        '5'
    } else if d == 6 {
        '6'
    } else if d == 7 {
        '7'
    } else if d == 8 {
        '8'
    } else {
        '9'
    }
}

/// The decimal writing of `n`, without leading zeros.
pub open spec fn decimal(n: nat) -> Seq<char>
    decreases n,
{
    if n < 10 {
        seq![digit_char(n)]
    } else {
        decimal(n / 10).push(digit_char(n % 10))
    }
}

/// The decimal writing of a signed number: a minus sign before the
/// magnitude of a negative one.
pub open spec fn signed_decimal(i: int) -> Seq<char> {
    if i < 0 {
        seq!['-'] + decimal((-i) as nat)
    } else {
        decimal(i as nat)
    }
}

fn digit(d: u64) -> (c: char)
    requires
        d < 10,
    ensures
        c == digit_char(d as nat),
{
    if d == 0 {
        '0'
    } else if d == 1 {
        '1'
    } else if d == 2 {
        '2'
    } else if d == 3 {
        '3'
    } else if d == 4 {
        '4'
    } else if d == 5 {
        '5'
    } else if d == 6 {
        '6'
    } else if d == 7 {
        '7'
    } else if d == 8 {
        '8'
    } else {
        '9'
    }
}

/// Appends the decimal writing of `n` to `out`.
pub fn push_decimal(out: &mut String, n: u64)
    ensures
        final(out)@ == old(out)@ + decimal(n as nat),
    decreases n,
{
    if n < 10 {
        push_char(out, digit(n));
        assert(out@ =~= old(out)@ + decimal(n as nat));
    } else {
        push_decimal(out, n / 10);
        push_char(out, digit(n % 10));
        assert(out@ =~= old(out)@ + decimal(n as nat));
    }
}

/// The decimal writing of `n`.
pub fn decimal_string(n: u64) -> (r: String)
    ensures
        r@ == decimal(n as nat),
{
    let mut out = String::new();
    push_decimal(&mut out, n);
    assert(out@ =~= decimal(n as nat));
    out
}

/// The decimal writing of a signed number.
pub fn signed_decimal_string(i: i64) -> (r: String)
    ensures
        r@ == signed_decimal(i as int),
{
    let mut out = String::new();
    if i < 0 {
        let magnitude: u64 = (-(i + 1)) as u64 + 1;
        push_char(&mut out, '-');
        push_decimal(&mut out, magnitude);
        assert(out@ =~= signed_decimal(i as int));
    } else {
        push_decimal(&mut out, i as u64);
        assert(out@ =~= signed_decimal(i as int));
    }
    out
}

/// The pieces of `parts` written one after the other with `sep` between
/// neighbours.
pub open spec fn joined(parts: Seq<Seq<char>>, sep: Seq<char>) -> Seq<char>
    decreases parts.len(),
{
    if parts.len() == 0 {
        Seq::empty()
    } else if parts.len() == 1 {
        parts[0]
    } else {
        joined(parts.drop_last(), sep) + sep + parts.last()
    }
}

/// Joins strings with a separator; wraps `Itertools::join`, which writes
/// every element through its `Display` form and puts `sep` between
/// consecutive elements (nothing before the first or after the last).
#[verifier::external_body]
pub(crate) fn join(parts: &Vec<String>, sep: &str) -> (r: String)
    ensures
        r@ == joined(parts.deep_view(), sep@),
{
    parts.iter().join(sep)
}

/// What `str::to_lowercase` of the standard library returns for a text.
pub uninterp spec fn lowercased(s: Seq<char>) -> Seq<char>;

/// The lowercase form of a text; wraps `str::to_lowercase`.
#[verifier::external_body]
pub(crate) fn lowercase(s: &str) -> (r: String)
    ensures
        r@ == lowercased(s@),
{
    s.to_lowercase()
}

/// What `char::is_alphabetic` of the standard library returns for a
/// character.
pub uninterp spec fn alphabetic(c: char) -> bool;

/// Whether a character is a letter; wraps `char::is_alphabetic`.
#[verifier::external_body]
pub(crate) fn is_alphabetic(c: char) -> (r: bool)
    ensures
        r == alphabetic(c),
{
    c.is_alphabetic()
}

/// The items of `chars` whose mark in `keep` is set, in order.
pub open spec fn picked(chars: Seq<char>, keep: Seq<bool>) -> Seq<char>
    decreases chars.len(),
{
    if chars.len() == 0 {
        Seq::empty()
    } else if keep[chars.len() - 1] {
        picked(chars.drop_last(), keep).push(chars.last())
    } else {
        picked(chars.drop_last(), keep)
    }
}

/// The letters of a text, in order.
pub open spec fn letters_of(s: Seq<char>) -> Seq<char> {
    picked(s, Seq::new(s.len(), |i: int| alphabetic(s[i])))
}

/// The text made of the characters whose mark is set.
pub fn pick(chars: &Vec<char>, keep: &Vec<bool>) -> (r: String)
    requires
        keep.len() == chars.len(),
    ensures
        r@ == picked(chars@, keep@),
{
    let mut out = String::new();
    let mut i: usize = 0;
    while i < chars.len()
        invariant
            i <= chars.len(),
            keep.len() == chars.len(),
            out@ == picked(chars@.subrange(0, i as int), keep@),
        decreases chars.len() - i,
    {
        proof {
            assert(chars@.subrange(0, i + 1).drop_last() =~= chars@.subrange(0, i as int));
        }
        if keep[i] {
            push_char(&mut out, chars[i]);
        }
        i = i + 1;
    }
    assert(chars@.subrange(0, chars.len() as int) =~= chars@);
    out
}

/// The letters of a text, in order.
pub fn letters(s: &str) -> (r: String)
    ensures
        r@ == letters_of(s@),
{
    let chars = chars_of(s);
    let mut keep: Vec<bool> = Vec::new();
    let mut i: usize = 0;
    while i < chars.len()
        invariant
            i <= chars.len(),
            keep.len() == i,
            forall|j: int| 0 <= j < i ==> #[trigger] keep[j] == alphabetic(chars[j]),
        decreases chars.len() - i,
    {
        keep.push(is_alphabetic(chars[i]));
        i = i + 1;
    }
    assert(keep@ =~= Seq::new(s@.len(), |i: int| alphabetic(s@[i])));
    pick(&chars, &keep)
}

/// The place of the first `sep` in a text, or the length of the text
/// when it holds none.
pub open spec fn first_of(s: Seq<char>, sep: char) -> int
    decreases s.len(),
{
    if s.len() == 0 {
        0
    } else if s[0] == sep {
        0
    } else {
        1 + first_of(s.drop_first(), sep)
    }
}

/// [`first_of`] finds the first separator, if there is one.
pub proof fn lemma_first_of(s: Seq<char>, sep: char)
    ensures
        0 <= first_of(s, sep) <= s.len(),
        first_of(s, sep) < s.len() ==> s[first_of(s, sep)] == sep,
        forall|j: int| 0 <= j < first_of(s, sep) ==> #[trigger] s[j] != sep,
    decreases s.len(),
{
    if s.len() > 0 && s[0] != sep {
        let rest = s.drop_first();
        lemma_first_of(rest, sep);
        assert forall|j: int| 0 <= j < first_of(s, sep) implies #[trigger] s[j] != sep by {
            if j > 0 {
                assert(s[j] == rest[j - 1]);
            }
        }
    }
}

/// The piece of a text before its first `sep`: all of it when it holds
/// none.
pub open spec fn head_of(s: Seq<char>, sep: char) -> Seq<char> {
    s.subrange(0, first_of(s, sep))
}

/// What follows the first `sep` of a text, if it holds one.
pub open spec fn tail_of(s: Seq<char>, sep: char) -> Option<Seq<char>> {
    if first_of(s, sep) < s.len() {
        Some(s.subrange(first_of(s, sep) + 1, s.len() as int))
    } else {
        None
    }
}

/// The second of the pieces into which `sep` cuts a text, if there are
/// two.
pub open spec fn second_piece(s: Seq<char>, sep: char) -> Option<Seq<char>> {
    match tail_of(s, sep) {
        Some(rest) => Some(head_of(rest, sep)),
        None => None,
    }
}

/// The place of the first `sep` at or after `from`, or the length of the
/// text.
fn find_char(chars: &Vec<char>, from: usize, sep: char) -> (place: usize)
    requires
        from <= chars.len(),
    ensures
        place == from + first_of(chars@.subrange(from as int, chars.len() as int), sep),
        from <= place <= chars.len(),
{
    let ghost rest = chars@.subrange(from as int, chars.len() as int);
    let mut i: usize = from;
    proof {
        lemma_first_of(rest, sep);
    }
    while i < chars.len()
        invariant
            from <= i <= chars.len(),
            rest == chars@.subrange(from as int, chars.len() as int),
            forall|j: int| from <= j < i ==> #[trigger] chars[j] != sep,
        decreases chars.len() - i,
    {
        if chars[i] == sep {
            proof {
                lemma_first_of(rest, sep);
                let p = first_of(rest, sep);
                assert(rest[i - from] == sep);
                if p < i - from {
                    assert(rest[p] == chars[from + p]);
                }
            }
            return i;
        }
        i = i + 1;
    }
    proof {
        lemma_first_of(rest, sep);
        let p = first_of(rest, sep);
        if p < rest.len() {
            assert(rest[p] == chars[from + p]);
        }
    }
    i
}

/// The first and, if there is one, the second of the pieces into which
/// `sep` cuts a text.
pub fn first_pieces(s: &str, sep: char) -> (r: (String, Option<String>))
    ensures
        r.0@ == head_of(s@, sep),
        match r.1 {
            Some(second) => second_piece(s@, sep) == Some(second@),
            None => second_piece(s@, sep).is_none(),
        },
{
    let chars = chars_of(s);
    assert(chars@.subrange(0, chars.len() as int) =~= chars@);
    let cut = find_char(&chars, 0, sep);
    let head = string_of_range(&chars, 0, cut);
    if cut < chars.len() {
        let end = find_char(&chars, cut + 1, sep);
        let second = string_of_range(&chars, cut + 1, end);
        proof {
            let rest = chars@.subrange(cut + 1, chars.len() as int);
            assert(rest.subrange(0, end - (cut + 1)) =~= chars@.subrange(cut + 1, end as int));
        }
        (head, Some(second))
    } else {
        (head, None)
    }
}

/// Whether `pattern` stands in `s` at place `at`.
pub open spec fn occurs_at(s: Seq<char>, pattern: Seq<char>, at: int) -> bool {
    0 <= at && at + pattern.len() <= s.len() && s.subrange(at, at + pattern.len()) == pattern
}

/// Whether `pattern` stands somewhere in `s`.
pub open spec fn contains_text(s: Seq<char>, pattern: Seq<char>) -> bool {
    exists|at: int| occurs_at(s, pattern, at)
}

fn matches_at(chars: &Vec<char>, pattern: &Vec<char>, at: usize) -> (r: bool)
    requires
        at + pattern.len() <= chars.len(),
    ensures
        r == occurs_at(chars@, pattern@, at as int),
{
    let mut k: usize = 0;
    while k < pattern.len()
        invariant
            k <= pattern.len(),
            at + pattern.len() <= chars.len(),
            forall|j: int| 0 <= j < k ==> chars[at + j] == #[trigger] pattern[j],
        decreases pattern.len() - k,
    {
        if chars[at + k] != pattern[k] {
            assert(chars@.subrange(at as int, at + pattern.len())[k as int] != pattern@[k as int]);
            return false;
        }
        k = k + 1;
    }
    assert(chars@.subrange(at as int, at + pattern.len()) =~= pattern@);
    true
}

/// Whether `pattern` stands somewhere in `s`.
pub fn has_text(s: &str, pattern: &str) -> (r: bool)
    ensures
        r == contains_text(s@, pattern@),
{
    let chars = chars_of(s);
    let wanted = chars_of(pattern);
    if wanted.len() > chars.len() {
        return false;
    }
    let last = chars.len() - wanted.len();
    let mut at: usize = 0;
    loop
        invariant
            at <= last,
            last == chars.len() - wanted.len(),
            chars@ == s@,
            wanted@ == pattern@,
            forall|j: int| 0 <= j < at ==> !occurs_at(s@, pattern@, j),
        decreases last - at,
    {
        if matches_at(&chars, &wanted, at) {
            return true;
        }
        if at == last {
            return false;
        }
        at = at + 1;
    }
}

/// The value of a digit, if the character is one.
pub open spec fn digit_value(c: char) -> Option<nat> {
    if c == '0' {
        Some(0)
    } else if c == '1' {
        Some(1)
    } else if c == '2' {
        Some(2)
    } else if c == '3' {
        Some(3)
    } else if c == '4' {
        Some(4)
    } else if c == '5' {
        Some(5)
    } else if c == '6' {
        Some(6)
    } else if c == '7' {
        Some(7)
    } else if c == '8' {
        Some(8)
    } else if c == '9' {
        Some(9)
    } else {
        None
    }
}

/// The number that a run of digits writes; nothing if one of the
/// characters is no digit. The empty run writes zero.
pub open spec fn digits_value(s: Seq<char>) -> Option<nat>
    decreases s.len(),
{
    if s.len() == 0 {
        Some(0)
    } else {
        match (digits_value(s.drop_last()), digit_value(s.last())) {
            (Some(high), Some(low)) => Some(high * 10 + low),
            _ => None,
        }
    }
}

/// The index that a text writes: one or more digits, with or without a
/// plus sign before them, if the number fits a `usize`.
pub open spec fn index_of_text(s: Seq<char>) -> Option<usize> {
    let digits = if s.len() > 0 && s[0] == '+' {
        s.drop_first()
    } else {
        s
    };
    if digits.len() == 0 {
        None
    } else {
        match digits_value(digits) {
            Some(value) => if value <= usize::MAX {
                Some(value as usize)
            } else {
                None
            },
            None => None,
        }
    }
}

/// The decimal writing of a number is a run of digits that writes the
/// number.
pub proof fn lemma_decimal_reads_back(n: nat)
    ensures
        decimal(n).len() > 0,
        digits_value(decimal(n)) == Some(n),
        forall|i: int|
            0 <= i < decimal(n).len() ==> digit_value(#[trigger] decimal(n)[i]).is_some(),
    decreases n,
{
    reveal_with_fuel(digits_value, 2);
    if n < 10 {
        assert(decimal(n).drop_last() =~= Seq::<char>::empty());
    } else {
        lemma_decimal_reads_back(n / 10);
        assert(decimal(n).drop_last() =~= decimal(n / 10));
        assert forall|i: int| 0 <= i < decimal(n).len() implies digit_value(
            #[trigger] decimal(n)[i],
        ).is_some() by {
            if i < decimal(n / 10).len() {
                assert(decimal(n)[i] == decimal(n / 10)[i]);
            }
        }
    }
}

fn digit_of(c: char) -> (r: Option<usize>)
    ensures
        match r {
            Some(d) => digit_value(c) == Some(d as nat) && d < 10,
            None => digit_value(c).is_none(),
        },
{
    if c == '0' {
        Some(0)
    } else if c == '1' {
        Some(1)
    } else if c == '2' {
        Some(2)
    } else if c == '3' {
        Some(3)
    } else if c == '4' {
        Some(4)
    } else if c == '5' {
        Some(5)
    } else if c == '6' {
        Some(6)
    } else if c == '7' {
        Some(7)
    } else if c == '8' {
        Some(8)
    } else if c == '9' {
        Some(9)
    } else {
        None
    }
}

/// A run of digits that goes on after a number too large for a `usize`
/// writes a number too large as well, or none.
proof fn lemma_digits_grow(s: Seq<char>, k: int)
    requires
        0 <= k <= s.len(),
        digits_value(s.subrange(0, k)).is_some(),
        digits_value(s.subrange(0, k)).unwrap() > usize::MAX,
    ensures
        digits_value(s).is_none() || digits_value(s).unwrap() > usize::MAX,
    decreases s.len() - k,
{
    if k < s.len() {
        assert(s.subrange(0, k + 1).drop_last() =~= s.subrange(0, k));
        if digits_value(s.subrange(0, k + 1)).is_some() {
            lemma_digits_grow(s, k + 1);
        } else {
            lemma_digits_stop(s, k + 1);
        }
    } else {
        assert(s.subrange(0, k) =~= s);
    }
}

/// A run of characters that goes on after something that is no number
/// is no number.
proof fn lemma_digits_stop(s: Seq<char>, k: int)
    requires
        0 <= k <= s.len(),
        digits_value(s.subrange(0, k)).is_none(),
    ensures
        digits_value(s).is_none(),
    decreases s.len() - k,
{
    if k < s.len() {
        assert(s.subrange(0, k + 1).drop_last() =~= s.subrange(0, k));
        lemma_digits_stop(s, k + 1);
    } else {
        assert(s.subrange(0, k) =~= s);
    }
}

/// Reads an index: one or more digits, with or without a plus sign
/// before them.
pub fn parse_index(s: &str) -> (r: Option<usize>)
    ensures
        r == index_of_text(s@),
{
    let chars = chars_of(s);
    let from: usize = if chars.len() > 0 && chars[0] == '+' {
        1
    } else {
        0
    };
    if from == chars.len() {
        return None;
    }
    let ghost digits = chars@.subrange(from as int, chars.len() as int);
    assert(digits =~= if s@.len() > 0 && s@[0] == '+' {
        s@.drop_first()
    } else {
        s@
    });
    let mut value: usize = 0;
    let mut i: usize = from;
    while i < chars.len()
        invariant
            from <= i <= chars.len(),
            from < chars.len(),
            digits == chars@.subrange(from as int, chars.len() as int),
            digits == (if s@.len() > 0 && s@[0] == '+' {
                s@.drop_first()
            } else {
                s@
            }),
            digits_value(digits.subrange(0, i - from)) == Some(value as nat),
        decreases chars.len() - i,
    {
        proof {
            assert(digits.subrange(0, i - from + 1).drop_last() =~= digits.subrange(0, i - from));
            assert(digits.subrange(0, i - from + 1).last() == chars[i as int]);
        }
        match digit_of(chars[i]) {
            None => {
                proof {
                    lemma_digits_stop(digits, i - from + 1);
                }
                return None;
            },
            Some(d) => {
                if value > (usize::MAX - d) / 10 {
                    proof {
                        assert(value * 10 + d > usize::MAX) by (nonlinear_arith)
                            requires
                                value > (usize::MAX - d) / 10,
                                d < 10,
                        ;
                        lemma_digits_grow(digits, i - from + 1);
                    }
                    return None;
                }
                assert(value * 10 + d <= usize::MAX) by (nonlinear_arith)
                    requires
                        value <= (usize::MAX - d) / 10,
                        d < 10,
                ;
                value = value * 10 + d;
            },
        }
        i = i + 1;
    }
    assert(digits.subrange(0, chars.len() - from) =~= digits);
    Some(value)
}

} // verus!
