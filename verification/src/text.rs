//! Text primitives over sequences of characters: white space, trimming,
//! substring search and splitting at a delimiter.

use crate::search::{first_true, lemma_first_true, lemma_first_true_is};
use vstd::prelude::*;

verus! {

/// Assumed of std's `String::push`, not proved: after the call the string
/// holds the characters that it held before, followed by `ch`.
pub assume_specification[ String::push ](s: &mut String, ch: char)
    ensures
        final(s)@ == old(s)@.push(ch),
;

/// Whether `c` is white space: one of the code points that carry the Unicode
/// property `White_Space`.
pub open spec fn is_space(c: char) -> bool {
    let u = c as u32;
    ||| 0x09 <= u <= 0x0D
    ||| u == 0x20
    ||| u == 0x85
    ||| u == 0xA0
    ||| u == 0x1680
    ||| 0x2000 <= u <= 0x200A
    ||| u == 0x2028
    ||| u == 0x2029
    ||| u == 0x202F
    ||| u == 0x205F
    ||| u == 0x3000
}

/// The first position at or after `from` that holds no white space, or the
/// length of `s`.
pub open spec fn leading_end(s: Seq<char>, from: int) -> int
    decreases s.len() - from,
{
    if 0 <= from < s.len() && is_space(s[from]) {
        leading_end(s, from + 1)
    } else {
        from
    }
}

/// The position just after the last character below `upto` that is no white
/// space, and never less than `floor`.
pub open spec fn trailing_start(s: Seq<char>, floor: int, upto: int) -> int
    decreases upto,
{
    if floor < upto <= s.len() && 0 < upto && is_space(s[upto - 1]) {
        trailing_start(s, floor, upto - 1)
    } else {
        upto
    }
}

/// `s` without the white space at its two ends.
pub open spec fn trimmed(s: Seq<char>) -> Seq<char> {
    let a = leading_end(s, 0);
    s.subrange(a, trailing_start(s, a, s.len() as int))
}

/// Whether `s` has no white space at either end.
pub open spec fn is_trimmed(s: Seq<char>) -> bool {
    s.len() > 0 ==> !is_space(s.first()) && !is_space(s.last())
}

/// Whether `needle` stands in `hay` at position `i`.
pub open spec fn occurs_at(hay: Seq<char>, needle: Seq<char>, i: int) -> bool {
    &&& 0 <= i
    &&& i + needle.len() <= hay.len()
    &&& hay.subrange(i, i + needle.len()) == needle
}

/// Whether `needle` stands somewhere in `hay`. The empty text stands in
/// every text.
pub open spec fn contains_text(hay: Seq<char>, needle: Seq<char>) -> bool {
    exists|i: int| occurs_at(hay, needle, i)
}

/// The position of the first `d` in `s`, or the length of `s` where `d` does
/// not occur.
pub open spec fn delimiter_index(s: Seq<char>, d: char) -> int {
    first_true(delimiter_flags(s, d), 0)
}

/// For each position of `s`, whether it holds `d`.
pub open spec fn delimiter_flags(s: Seq<char>, d: char) -> Seq<bool> {
    Seq::new(s.len(), |i: int| s[i] == d)
}

/// The part of `s` before its first `d`; all of `s` where `d` does not occur.
pub open spec fn field_before(s: Seq<char>, d: char) -> Seq<char> {
    s.subrange(0, delimiter_index(s, d))
}

/// The part of `s` after its first `d`; empty where `d` does not occur.
pub open spec fn field_after(s: Seq<char>, d: char) -> Seq<char> {
    if delimiter_index(s, d) < s.len() {
        s.subrange(delimiter_index(s, d) + 1, s.len() as int)
    } else {
        Seq::empty()
    }
}

/// `s` filled up at its end with blanks to `width` characters; `s` itself
/// where it is already that long.
pub open spec fn padded(s: Seq<char>, width: nat) -> Seq<char> {
    if s.len() >= width {
        s
    } else {
        s + Seq::new((width - s.len()) as nat, |i: int| ' ')
    }
}

/// The character for a digit from 0 to 9.
pub open spec fn digit(d: int) -> char {
    if d == 0 {
        '0'
    } else if d == 1 {
        '1'
    } else if d == 2 {
        '2'
    } else if d == 3 {
        '3'
    } else if d == 4 {
        '4'
    } else if d == 5 {
        '5'
    } else if d == 6 {
        '6'
    } else if d == 7 {
        '7'
    } else if d == 8 {
        '8'
    } else {
        '9'
    }
}

/// `n` written in decimal digits, without leading zeros.
pub open spec fn decimal(n: nat) -> Seq<char>
    decreases n,
{
    if n < 10 {
        seq![digit(n as int)]
    } else {
        decimal(n / 10).push(digit((n % 10) as int))
    }
}

proof fn lemma_leading_end(s: Seq<char>, from: int)
    requires
        0 <= from <= s.len(),
    ensures
        from <= leading_end(s, from) <= s.len(),
        forall|j: int| from <= j < leading_end(s, from) ==> is_space(s[j]),
        leading_end(s, from) < s.len() ==> !is_space(s[leading_end(s, from)]),
    decreases s.len() - from,
{
    if from < s.len() && is_space(s[from]) {
        lemma_leading_end(s, from + 1);
    }
}

proof fn lemma_trailing_start(s: Seq<char>, floor: int, upto: int)
    requires
        0 <= floor <= upto <= s.len(),
    ensures
        floor <= trailing_start(s, floor, upto) <= upto,
        forall|j: int| trailing_start(s, floor, upto) <= j < upto ==> is_space(s[j]),
        floor < trailing_start(s, floor, upto) ==> !is_space(
            s[trailing_start(s, floor, upto) - 1],
        ),
    decreases upto,
{
    if floor < upto && is_space(s[upto - 1]) {
        lemma_trailing_start(s, floor, upto - 1);
    }
}

/// Trimming cuts a piece out of `s`: only white space is left out before and
/// after it, and the piece has no white space at either end.
pub proof fn lemma_trimmed(s: Seq<char>)
    ensures
        is_trimmed(trimmed(s)),
        exists|a: int, b: int|
            {
                &&& 0 <= a <= b <= s.len()
                &&& #[trigger] s.subrange(a, b) == trimmed(s)
                &&& forall|j: int| 0 <= j < a ==> is_space(s[j])
                &&& forall|j: int| b <= j < s.len() ==> is_space(s[j])
            },
{
    let a = leading_end(s, 0);
    let b = trailing_start(s, a, s.len() as int);
    lemma_leading_end(s, 0);
    lemma_trailing_start(s, a, s.len() as int);
    assert(s.subrange(a, b) == trimmed(s));
}

/// The first `d` splits `s` into a part without `d`, the `d` itself where
/// there is one, and the rest.
pub proof fn lemma_fields(s: Seq<char>, d: char)
    ensures
        !field_before(s, d).contains(d),
        s.contains(d) ==> s == field_before(s, d) + seq![d] + field_after(s, d),
        !s.contains(d) ==> field_before(s, d) == s && field_after(s, d).len() == 0,
{
    let flags = delimiter_flags(s, d);
    lemma_first_true(flags, 0);
    let k = delimiter_index(s, d);
    if s.contains(d) {
        let w = choose|i: int| 0 <= i < s.len() && s[i] == d;
        assert(flags[w]);
        assert(k < s.len());
        assert(s =~= field_before(s, d) + seq![d] + field_after(s, d));
    } else {
        if k < s.len() {
            assert(flags[k]);
            assert(s[k] == d);
        }
        assert(field_before(s, d) =~= s);
    }
    assert forall|j: int| 0 <= j < field_before(s, d).len() implies field_before(s, d)[j] != d by {
        assert(!flags[j]);
    }
}

/// Decides `is_space`.
pub fn is_whitespace(c: char) -> (r: bool)
    ensures
        r == is_space(c),
{
    let u: u32 = c as u32;
    (0x09 <= u && u <= 0x0D) || u == 0x20 || u == 0x85 || u == 0xA0 || u == 0x1680 || (0x2000 <= u
        && u <= 0x200A) || u == 0x2028 || u == 0x2029 || u == 0x202F || u == 0x205F || u == 0x3000
}

/// The characters of `s`, in order.
pub fn chars_of(s: &str) -> (r: Vec<char>)
    ensures
        r@ == s@,
{
    let mut out: Vec<char> = Vec::new();
    for c in it: s.chars()
        invariant
            out@ == it.seq().take(it.index()),
            it.seq() == s@,
    {
        out.push(c);
    }
    out
}

/// The string that holds the characters of `chars` from `from` up to `to`.
pub fn string_of(chars: &Vec<char>, from: usize, to: usize) -> (r: String)
    requires
        from <= to <= chars.len(),
    ensures
        r@ == chars@.subrange(from as int, to as int),
{
    let mut out = String::new();
    let mut i: usize = from;
    while i < to
        invariant
            from <= i <= to <= chars.len(),
            out@ == chars@.subrange(from as int, i as int),
        decreases to - i,
    {
        out.push(chars[i]);
        i += 1;
        assert(chars@.subrange(from as int, i as int) == chars@.subrange(from as int, i - 1).push(
            chars@[i - 1],
        ));
    }
    out
}

/// The bounds of `trimmed`: the piece of `s` from the first of them up to
/// the second is `s` without the white space at its ends.
pub fn trim_bounds(s: &Vec<char>) -> (r: (usize, usize))
    ensures
        r.0 <= r.1 <= s.len(),
        r.0 == leading_end(s@, 0),
        r.1 == trailing_start(s@, r.0 as int, s.len() as int),
        s@.subrange(r.0 as int, r.1 as int) == trimmed(s@),
{
    let n = s.len();
    let mut a: usize = 0;
    while a < n && is_whitespace(s[a])
        invariant
            a <= n == s.len(),
            leading_end(s@, 0) == leading_end(s@, a as int),
        decreases n - a,
    {
        a += 1;
    }
    let mut b: usize = n;
    while b > a && is_whitespace(s[b - 1])
        invariant
            a <= b <= n == s.len(),
            trailing_start(s@, a as int, n as int) == trailing_start(s@, a as int, b as int),
        decreases b,
    {
        b -= 1;
    }
    (a, b)
}

/// The characters of `chars` from `from` up to `to`.
pub fn slice_of(chars: &Vec<char>, from: usize, to: usize) -> (r: Vec<char>)
    requires
        from <= to <= chars.len(),
    ensures
        r@ == chars@.subrange(from as int, to as int),
{
    let mut out: Vec<char> = Vec::new();
    let mut i: usize = from;
    while i < to
        invariant
            from <= i <= to <= chars.len(),
            out@ == chars@.subrange(from as int, i as int),
        decreases to - i,
    {
        out.push(chars[i]);
        i += 1;
        assert(chars@.subrange(from as int, i as int) == chars@.subrange(from as int, i - 1).push(
            chars@[i - 1],
        ));
    }
    out
}

/// `s` without the white space at its two ends.
pub fn trim_chars(s: &Vec<char>) -> (r: Vec<char>)
    ensures
        r@ == trimmed(s@),
{
    let (a, b) = trim_bounds(s);
    slice_of(s, a, b)
}

/// The string that holds the characters of `chars`.
pub fn text_of(chars: &Vec<char>) -> (r: String)
    ensures
        r@ == chars@,
{
    assert(chars@.subrange(0, chars.len() as int) == chars@);
    string_of(chars, 0, chars.len())
}

/// `s` without the white space at its two ends.
pub fn trim(s: &str) -> (r: String)
    ensures
        r@ == trimmed(s@),
{
    let chars = chars_of(s);
    let (a, b) = trim_bounds(&chars);
    string_of(&chars, a, b)
}

/// Whether `needle` stands in `hay` at position `i`.
pub fn matches_at(hay: &Vec<char>, needle: &Vec<char>, i: usize) -> (r: bool)
    requires
        i + needle.len() <= hay.len(),
    ensures
        r == occurs_at(hay@, needle@, i as int),
{
    let m = needle.len();
    let mut j: usize = 0;
    while j < m
        invariant
            j <= m == needle.len(),
            i + m <= hay.len(),
            forall|k: int| 0 <= k < j ==> hay@[i + k] == needle@[k],
        decreases m - j,
    {
        if hay[i + j] != needle[j] {
            assert(hay@.subrange(i as int, i + m)[j as int] != needle@[j as int]);
            return false;
        }
        j += 1;
    }
    assert(hay@.subrange(i as int, i + m) =~= needle@);
    true
}

/// Whether `needle` stands somewhere in `hay`.
pub fn contains_chars(hay: &Vec<char>, needle: &Vec<char>) -> (r: bool)
    ensures
        r == contains_text(hay@, needle@),
{
    let n = hay.len();
    let m = needle.len();
    if m > n {
        return false;
    }
    let last: usize = n - m;
    let mut i: usize = 0;
    loop
        invariant
            n == hay.len(),
            m == needle.len(),
            last == n - m,
            i <= last,
            forall|k: int| 0 <= k < i ==> !occurs_at(hay@, needle@, k),
        decreases last - i,
    {
        if matches_at(hay, needle, i) {
            return true;
        }
        if i == last {
            return false;
        }
        i += 1;
    }
}

/// Whether `needle` stands somewhere in `hay`.
pub fn contains(hay: &str, needle: &str) -> (r: bool)
    ensures
        r == contains_text(hay@, needle@),
{
    let h = chars_of(hay);
    let n = chars_of(needle);
    contains_chars(&h, &n)
}

/// Whether `a` and `b` hold the same characters.
pub fn same_chars(a: &Vec<char>, b: &Vec<char>) -> (r: bool)
    ensures
        r == (a@ == b@),
{
    if a.len() != b.len() {
        return false;
    }
    let ok = matches_at(a, b, 0);
    proof {
        assert(a@.subrange(0, a.len() as int) == a@);
    }
    ok
}

/// The position of the first `d` in `s`, or the length of `s`.
pub fn find_delimiter(s: &Vec<char>, d: char) -> (r: usize)
    ensures
        r == delimiter_index(s@, d),
        r <= s.len(),
{
    let n = s.len();
    let mut i: usize = 0;
    while i < n && s[i] != d
        invariant
            i <= n == s.len(),
            forall|j: int| 0 <= j < i ==> s@[j] != d,
        decreases n - i,
    {
        i += 1;
    }
    proof {
        lemma_first_true_is(delimiter_flags(s@, d), 0, i as int);
    }
    i
}

/// The character for a digit from 0 to 9.
pub fn digit_of(d: usize) -> (r: char)
    requires
        d < 10,
    ensures
        r == digit(d as int),
{
    if d == 0 {
        '0'
    } else if d == 1 {
        '1'
    } else if d == 2 {
        '2'
    } else if d == 3 {
        '3'
    } else if d == 4 {
        '4'
    } else if d == 5 {
        '5'
    } else if d == 6 {
        '6'
    } else if d == 7 {
        '7'
    } else if d == 8 {
        '8'
    } else {
        '9'
    }
}

/// `n` written in decimal digits.
pub fn decimal_of(n: usize) -> (r: Vec<char>)
    ensures
        r@ == decimal(n as nat),
    decreases n,
{
    if n < 10 {
        let mut out: Vec<char> = Vec::new();
        out.push(digit_of(n));
        assert(out@ =~= decimal(n as nat));
        out
    } else {
        let mut out = decimal_of(n / 10);
        out.push(digit_of(n % 10));
        out
    }
}

/// Appends the characters of `chars` to `s`.
pub fn append_chars(s: &mut String, chars: &Vec<char>)
    ensures
        final(s)@ == old(s)@ + chars@,
{
    let mut i: usize = 0;
    while i < chars.len()
        invariant
            i <= chars.len(),
            s@ == old(s)@ + chars@.subrange(0, i as int),
        decreases chars.len() - i,
    {
        s.push(chars[i]);
        i += 1;
        assert(chars@.subrange(0, i as int) == chars@.subrange(0, i - 1).push(chars@[i - 1]));
        assert(s@ =~= old(s)@ + chars@.subrange(0, i as int));
    }
    assert(chars@.subrange(0, chars.len() as int) == chars@);
}

/// `s` filled up at its end with blanks to `width` characters.
pub fn pad(s: &str, width: usize) -> (r: String)
    ensures
        r@ == padded(s@, width as nat),
{
    let chars = chars_of(s);
    let mut out = string_of(&chars, 0, chars.len());
    assert(chars@.subrange(0, chars.len() as int) == chars@);
    let mut n: usize = chars.len();
    while n < width
        invariant
            chars@ == s@,
            chars.len() <= n,
            n <= width || n == chars.len(),
            out@ == s@ + Seq::new((n - chars.len()) as nat, |i: int| ' '),
        decreases width - n,
    {
        out.push(' ');
        n += 1;
        assert(out@ =~= s@ + Seq::new((n - chars.len()) as nat, |i: int| ' '));
    }
    assert(out@ =~= padded(s@, width as nat));
    out
}

} // verus!
