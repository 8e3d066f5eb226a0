//! Building blocks for text: conversions between strings, character vectors and bytes,
//! searching, trimming and decimal notation, all stated over sequences.
use vstd::prelude::*;
use vstd::string::*;
use vstd::utf8::{encode_scalar, encode_utf8};

verus! {

/// The decimal digit for `d`, for `0 <= d <= 9`.
pub open spec fn digit_char(d: int) -> char {
    if d == 0 {
        '0'
    } else if d == 1 {
        '1'
    } else if d == 2 {
        '2'
    } else if d == 3 {
        '3'
    } else if d == 4 {
        '4'
    } else if d == 5 {
        '5'
    } else if d == 6 {
        '6'
    } else if d == 7 {
        '7'
    } else if d == 8 {
        '8'
    } else {
        '9'
    }
}

/// Decimal notation of `n`, without leading zeros (`0` is written "0").
pub open spec fn decimal(n: nat) -> Seq<char>
    decreases n,
{
    if n < 10 {
        seq![digit_char(n as int)]
    } else {
        decimal(n / 10).push(digit_char((n % 10) as int))
    }
}

/// `width - len` zeros, or nothing where `len >= width`.
pub open spec fn zeros(len: nat, width: nat) -> Seq<char> {
    if len >= width {
        Seq::<char>::empty()
    } else {
        Seq::new((width - len) as nat, |i: int| '0')
    }
}

/// Decimal notation of `n`, filled with zeros on the left up to `width` characters.
pub open spec fn padded(n: nat, width: nat) -> Seq<char> {
    zeros(decimal(n).len(), width) + decimal(n)
}

/// Whether `c` is a decimal digit.
pub open spec fn is_digit(c: char) -> bool {
    '0' <= c <= '9'
}

/// The value of a digit character.
pub open spec fn digit_value(c: char) -> nat {
    (c as u32 - '0' as u32) as nat
}

/// Whether `s` is a non-empty run of decimal digits.
pub open spec fn is_number(s: Seq<char>) -> bool {
    s.len() > 0 && forall|i: int| 0 <= i < s.len() ==> is_digit(#[trigger] s[i])
}

/// The number that a run of decimal digits denotes.
pub open spec fn number_value(s: Seq<char>) -> nat
    decreases s.len(),
{
    if s.len() == 0 {
        0
    } else {
        number_value(s.drop_last()) * 10 + digit_value(s.last())
    }
}

/// Unicode white space, the set that `char::is_whitespace` accepts.
pub open spec fn is_space(c: char) -> bool {
    let u = c as u32;
    ||| 0x09 <= u <= 0x0D
    ||| u == 0x20
    ||| u == 0x85
    ||| u == 0xA0
    ||| u == 0x1680
    ||| 0x2000 <= u <= 0x200A
    ||| u == 0x2028
    ||| u == 0x2029
    ||| u == 0x202F
    ||| u == 0x205F
    ||| u == 0x3000
}

/// `s` without its leading white space.
pub open spec fn trim_start(s: Seq<char>) -> Seq<char>
    decreases s.len(),
{
    if s.len() > 0 && is_space(s[0]) {
        trim_start(s.skip(1))
    } else {
        s
    }
}

/// `s` without its trailing white space.
pub open spec fn trim_end(s: Seq<char>) -> Seq<char>
    decreases s.len(),
{
    if s.len() > 0 && is_space(s.last()) {
        trim_end(s.drop_last())
    } else {
        s
    }
}

/// `s` without leading and trailing white space.
pub open spec fn trim(s: Seq<char>) -> Seq<char> {
    trim_end(trim_start(s))
}

/// Index of the first `x` in `s`, or `s.len()` where there is none.
pub open spec fn position<T>(s: Seq<T>, x: T) -> int
    decreases s.len(),
{
    if s.len() == 0 {
        0
    } else if s[0] == x {
        0
    } else {
        1 + position(s.skip(1), x)
    }
}

/// What stands before the first `x` in `s` (all of `s` where there is none).
pub open spec fn before<T>(s: Seq<T>, x: T) -> Seq<T> {
    s.take(position(s, x))
}

/// What stands after the first `x` in `s` (nothing where there is none).
pub open spec fn after<T>(s: Seq<T>, x: T) -> Seq<T> {
    if position(s, x) < s.len() {
        s.skip(position(s, x) + 1)
    } else {
        Seq::<T>::empty()
    }
}

/// Whether `needle` occurs in `hay` at index `at`.
pub open spec fn occurs_at<T>(hay: Seq<T>, needle: Seq<T>, at: int) -> bool {
    0 <= at && at + needle.len() <= hay.len() && hay.subrange(at, at + needle.len()) == needle
}

/// Whether `needle` occurs somewhere in `hay`.
pub open spec fn contains<T>(hay: Seq<T>, needle: Seq<T>) -> bool {
    exists|at: int| occurs_at(hay, needle, at)
}

/// The texts of a list of pairs of strings.
pub open spec fn pairs(list: Seq<(String, String)>) -> Seq<(Seq<char>, Seq<char>)> {
    Seq::new(list.len(), |i: int| (list[i].0@, list[i].1@))
}

/// The texts of a list of directory entries: kind, name and path of each.
pub open spec fn triples(list: Seq<(String, String, String)>) -> Seq<
    (Seq<char>, Seq<char>, Seq<char>),
> {
    Seq::new(list.len(), |i: int| (list[i].0@, list[i].1@, list[i].2@))
}

/// `position` is the one index that has no `x` before it and either holds `x` or ends `s`.
pub proof fn lemma_position<T>(s: Seq<T>, x: T)
    ensures
        0 <= position(s, x) <= s.len(),
        forall|j: int| 0 <= j < position(s, x) ==> s[j] != x,
        position(s, x) < s.len() ==> s[position(s, x)] == x,
    decreases s.len(),
{
    if s.len() > 0 && s[0] != x {
        lemma_position(s.skip(1), x);
        assert forall|j: int| 0 <= j < position(s, x) implies s[j] != x by {
            if j > 0 {
                assert(s.skip(1)[j - 1] == s[j]);
            }
        }
    }
}

/// An index with no `x` before it that holds `x` or ends `s` is `position(s, x)`.
pub proof fn lemma_position_is<T>(s: Seq<T>, x: T, i: int)
    requires
        0 <= i <= s.len(),
        forall|j: int| 0 <= j < i ==> s[j] != x,
        i < s.len() ==> s[i] == x,
    ensures
        position(s, x) == i,
{
    lemma_position(s, x);
    let p = position(s, x);
    if p < i {
        assert(s[p] == x);
    } else if i < p {
        assert(s[i] == x);
    }
}

/// What occurs in the end of a text occurs in the text.
pub proof fn lemma_contains_in_end<T>(hay: Seq<T>, from: int, needle: Seq<T>)
    requires
        0 <= from <= hay.len(),
        contains(hay.skip(from), needle),
    ensures
        contains(hay, needle),
{
    let at = choose|at: int| occurs_at(hay.skip(from), needle, at);
    assert(hay.subrange(from + at, from + at + needle.len()) == hay.skip(from).subrange(
        at,
        at + needle.len(),
    ));
    assert(occurs_at(hay, needle, from + at));
}

/// A text occurs in what is put around it.
pub proof fn lemma_contains_middle<T>(before: Seq<T>, middle: Seq<T>, after: Seq<T>)
    ensures
        contains(before + middle + after, middle),
{
    let whole = before + middle + after;
    assert(whole.subrange(before.len() as int, before.len() as int + middle.len()) == middle);
    assert(occurs_at(whole, middle, before.len() as int));
}

/// A needle that occurs in `hay + tail`, where `tail` is no longer than the needle and
/// begins with a character that the needle does not hold, occurs in `hay`.
pub proof fn lemma_contains_before_tail(hay: Seq<char>, tail: Seq<char>, needle: Seq<char>)
    requires
        contains(hay + tail, needle),
        0 < tail.len() <= needle.len(),
        forall|i: int| 0 <= i < needle.len() ==> needle[i] != tail[0],
    ensures
        contains(hay, needle),
{
    let whole = hay + tail;
    let at = choose|at: int| occurs_at(whole, needle, at);
    if at + needle.len() > hay.len() {
        let k = hay.len() - at;
        assert(0 <= k < needle.len());
        assert(whole.subrange(at, at + needle.len())[k] == whole[hay.len() as int]);
        assert(whole[hay.len() as int] == tail[0]);
        assert(false);
    }
    assert(hay.subrange(at, at + needle.len()) == whole.subrange(at, at + needle.len()));
    assert(occurs_at(hay, needle, at));
}

/// The UTF-8 encoding of two texts, one after the other, is the encoding of the first
/// followed by that of the second.
pub proof fn lemma_encode_concat(first: Seq<char>, second: Seq<char>)
    ensures
        encode_utf8(first + second) == encode_utf8(first) + encode_utf8(second),
    decreases first.len(),
{
    if first.len() == 0 {
        assert(first + second == second);
        assert(encode_utf8(first) + encode_utf8(second) == encode_utf8(second));
    } else {
        assert((first + second).drop_first() == first.drop_first() + second);
        lemma_encode_concat(first.drop_first(), second);
        assert(encode_scalar(first[0] as u32) + (encode_utf8(first.drop_first()) + encode_utf8(
            second,
        )) == encode_utf8(first) + encode_utf8(second));
    }
}

/// A text that holds another holds it in UTF-8 too.
pub proof fn lemma_contains_encoded(hay: Seq<char>, needle: Seq<char>)
    requires
        contains(hay, needle),
    ensures
        contains(encode_utf8(hay), encode_utf8(needle)),
{
    let at = choose|at: int| occurs_at(hay, needle, at);
    let before = hay.take(at);
    let after = hay.skip(at + needle.len());
    assert(hay == before + needle + after);
    lemma_encode_concat(before + needle, after);
    lemma_encode_concat(before, needle);
    lemma_contains_middle(encode_utf8(before), encode_utf8(needle), encode_utf8(after));
}

/// Appends one character to a string, as `String::push` does: the new text is the old one
/// followed by `c`.
#[verifier::external_body]
pub(crate) fn push_char(s: &mut String, c: char)
    ensures
        final(s)@ == old(s)@.push(c),
{
    s.push(c);
}

/// The characters of `s`, in order.
pub fn chars_of(s: &str) -> (out: Vec<char>)
    ensures
        out@ == s@,
{
    let mut out: Vec<char> = Vec::new();
    for c in it: s.chars()
        invariant
            it.seq() == s@,
            out@ == s@.take(it.index() as int),
    {
        out.push(c);
    }
    out
}

/// The bytes of `text` in UTF-8.
pub fn bytes_of(text: &str) -> (out: Vec<u8>)
    ensures
        out@ == encode_utf8(text@),
{
    text.as_bytes_vec()
}

/// Appends `more` to `out`.
pub fn push_bytes(out: &mut Vec<u8>, more: &Vec<u8>)
    ensures
        final(out)@ == old(out)@ + more@,
{
    let mut i: usize = 0;
    while i < more.len()
        invariant
            i <= more.len(),
            out@ == old(out)@ + more@.take(i as int),
        decreases more.len() - i,
    {
        out.push(more[i]);
        assert(more@.take(i + 1) == more@.take(i as int).push(more@[i as int]));
        i += 1;
    }
    assert(more@.take(more.len() as int) == more@);
}

/// The text made of `chars[from..to]`.
pub fn text_of(chars: &Vec<char>, from: usize, to: usize) -> (out: String)
    requires
        from <= to <= chars.len(),
    ensures
        out@ == chars@.subrange(from as int, to as int),
{
    let mut out = String::new();
    let mut i: usize = from;
    while i < to
        invariant
            from <= i <= to <= chars.len(),
            out@ == chars@.subrange(from as int, i as int),
        decreases to - i,
    {
        push_char(&mut out, chars[i]);
        i += 1;
    }
    out
}

/// The text made of all of `chars`.
pub fn text_of_all(chars: &Vec<char>) -> (out: String)
    ensures
        out@ == chars@,
{
    let out = text_of(chars, 0, chars.len());
    assert(chars@.subrange(0, chars.len() as int) == chars@);
    out
}

/// Whether two character vectors hold the same text.
pub fn same_chars(a: &Vec<char>, b: &Vec<char>) -> (r: bool)
    ensures
        r == (a@ == b@),
{
    if a.len() != b.len() {
        return false;
    }
    let mut i: usize = 0;
    while i < a.len()
        invariant
            a.len() == b.len(),
            i <= a.len(),
            a@.take(i as int) == b@.take(i as int),
        decreases a.len() - i,
    {
        if a[i] != b[i] {
            return false;
        }
        assert(a@.take(i + 1) == a@.take(i as int).push(a@[i as int]));
        assert(b@.take(i + 1) == b@.take(i as int).push(b@[i as int]));
        i += 1;
    }
    assert(a@.take(a.len() as int) == a@);
    assert(b@.take(b.len() as int) == b@);
    true
}

/// Whether `a` and `b` hold the same text.
pub fn same_text(a: &str, b: &str) -> (r: bool)
    ensures
        r == (a@ == b@),
{
    let x = chars_of(a);
    let y = chars_of(b);
    same_chars(&x, &y)
}

/// Whether `chars` begins with `prefix`.
pub fn starts_with(chars: &Vec<char>, prefix: &Vec<char>) -> (r: bool)
    ensures
        r == prefix@.is_prefix_of(chars@),
{
    if prefix.len() > chars.len() {
        return false;
    }
    let mut i: usize = 0;
    while i < prefix.len()
        invariant
            prefix.len() <= chars.len(),
            i <= prefix.len(),
            forall|j: int| 0 <= j < i ==> prefix@[j] == chars@[j],
        decreases prefix.len() - i,
    {
        if prefix[i] != chars[i] {
            return false;
        }
        i += 1;
    }
    true
}

/// Whether `needle` occurs in `hay` at index `at`.
pub fn occurs_at_index(hay: &Vec<char>, needle: &Vec<char>, at: usize) -> (r: bool)
    requires
        at + needle.len() <= hay.len(),
    ensures
        r == occurs_at(hay@, needle@, at as int),
{
    let ghost part = hay@.subrange(at as int, at + needle.len());
    let mut j: usize = 0;
    while j < needle.len()
        invariant
            at + needle.len() <= hay.len(),
            part == hay@.subrange(at as int, at + needle.len()),
            j <= needle.len(),
            forall|k: int| 0 <= k < j ==> part[k] == needle@[k],
        decreases needle.len() - j,
    {
        if hay[at + j] != needle[j] {
            assert(part[j as int] != needle@[j as int]);
            return false;
        }
        j += 1;
    }
    assert(part == needle@);
    true
}

/// Whether `needle` occurs somewhere in `hay`.
pub fn contains_chars(hay: &Vec<char>, needle: &Vec<char>) -> (r: bool)
    ensures
        r == contains(hay@, needle@),
{
    if needle.len() == 0 {
        assert(occurs_at(hay@, needle@, 0)) by {
            assert(hay@.subrange(0, 0) == needle@);
        }
        return true;
    }
    if needle.len() > hay.len() {
        return false;
    }
    let mut at: usize = 0;
    while at <= hay.len() - needle.len()
        invariant
            0 < needle.len() <= hay.len(),
            forall|k: int| 0 <= k < at ==> !occurs_at(hay@, needle@, k),
        decreases hay.len() - at,
    {
        if occurs_at_index(hay, needle, at) {
            return true;
        }
        at += 1;
    }
    false
}

/// Index of the first `c` in `chars[from..to]`, counted from the start of `chars`, or `to`.
pub fn find_char(chars: &Vec<char>, from: usize, to: usize, c: char) -> (at: usize)
    requires
        from <= to <= chars.len(),
    ensures
        at == from + position(chars@.subrange(from as int, to as int), c),
        from <= at <= to,
{
    let ghost part = chars@.subrange(from as int, to as int);
    let mut i: usize = from;
    while i < to && chars[i] != c
        invariant
            from <= i <= to <= chars.len(),
            part == chars@.subrange(from as int, to as int),
            forall|j: int| 0 <= j < i - from ==> part[j] != c,
        decreases to - i,
    {
        i += 1;
    }
    proof {
        lemma_position_is(part, c, i - from);
    }
    i
}

/// Whether `c` is white space.
pub fn is_space_char(c: char) -> (r: bool)
    ensures
        r == is_space(c),
{
    let u: u32 = c as u32;
    (0x09 <= u && u <= 0x0D) || u == 0x20 || u == 0x85 || u == 0xA0 || u == 0x1680 || (0x2000 <= u
        && u <= 0x200A) || u == 0x2028 || u == 0x2029 || u == 0x202F || u == 0x205F || u == 0x3000
}

/// The bounds of `chars[from..to]` once leading and trailing white space is left out.
pub fn trim_bounds(chars: &Vec<char>, from: usize, to: usize) -> (r: (usize, usize))
    requires
        from <= to <= chars.len(),
    ensures
        from <= r.0 <= r.1 <= to,
        chars@.subrange(r.0 as int, r.1 as int) == trim(chars@.subrange(from as int, to as int)),
{
    let mut a: usize = from;
    while a < to && is_space_char(chars[a])
        invariant
            from <= a <= to <= chars.len(),
            trim_start(chars@.subrange(from as int, to as int)) == trim_start(
                chars@.subrange(a as int, to as int),
            ),
        decreases to - a,
    {
        assert(chars@.subrange(a as int, to as int).skip(1) == chars@.subrange(a + 1, to as int));
        a += 1;
    }
    assert(trim_start(chars@.subrange(a as int, to as int)) == chars@.subrange(a as int, to as int));
    let mut b: usize = to;
    while a < b && is_space_char(chars[b - 1])
        invariant
            from <= a <= b <= to <= chars.len(),
            trim_end(chars@.subrange(a as int, to as int)) == trim_end(
                chars@.subrange(a as int, b as int),
            ),
        decreases b - a,
    {
        assert(chars@.subrange(a as int, b as int).drop_last() == chars@.subrange(
            a as int,
            b - 1,
        ));
        b -= 1;
    }
    assert(trim_end(chars@.subrange(a as int, b as int)) == chars@.subrange(a as int, b as int));
    (a, b)
}

/// `s` without leading and trailing white space, as `str::trim` gives it.
pub fn trimmed(s: &str) -> (out: String)
    ensures
        out@ == trim(s@),
{
    let chars = chars_of(s);
    let (a, b) = trim_bounds(&chars, 0, chars.len());
    assert(chars@.subrange(0, chars.len() as int) == chars@);
    text_of(&chars, a, b)
}

/// The digit for `d`.
pub fn digit_of(d: u8) -> (c: char)
    requires
        d < 10,
    ensures
        c == digit_char(d as int),
{
    match d {
        0 => '0',
        1 => '1',
        2 => '2',
        3 => '3',
        4 => '4',
        5 => '5',
        6 => '6',
        7 => '7',
        8 => '8',
        _ => '9',
    }
}

/// How many digits the decimal notation of small and of large numbers has.
pub proof fn lemma_decimal_len(n: nat)
    ensures
        n < 10 ==> decimal(n).len() == 1,
        10 <= n < 100 ==> decimal(n).len() == 2,
        100 <= n < 1000 ==> decimal(n).len() == 3,
        1000 <= n ==> decimal(n).len() >= 4,
    decreases n,
{
    reveal_with_fuel(decimal, 4);
    if n >= 1000 {
        lemma_decimal_len(n / 10);
    }
}

/// Appends the decimal notation of `n` to `out`.
pub fn push_decimal(out: &mut String, n: u64)
    ensures
        final(out)@ == old(out)@ + decimal(n as nat),
    decreases n,
{
    if n >= 10 {
        push_decimal(out, n / 10);
    }
    push_char(out, digit_of((n % 10) as u8));
    proof {
        if n >= 10 {
            assert(old(out)@ + decimal(n as nat) == (old(out)@ + decimal((n / 10) as nat)).push(
                digit_char((n % 10) as int),
            ));
        } else {
            assert(old(out)@ + decimal(n as nat) == old(out)@.push(digit_char(n as int)));
        }
    }
}

/// Appends `n` in decimal, filled with zeros on the left up to `width` characters.
pub fn push_padded(out: &mut String, n: u64, width: u8)
    requires
        width <= 4,
    ensures
        final(out)@ == old(out)@ + padded(n as nat, width as nat),
{
    proof {
        lemma_decimal_len(n as nat);
    }
    let digits: u8 = if n < 10 {
        1
    } else if n < 100 {
        2
    } else if n < 1000 {
        3
    } else {
        4
    };
    let ghost start = out@;
    let mut k: u8 = digits;
    while k < width
        invariant
            digits <= k,
            k <= width || k == digits,
            width <= 4,
            out@ == start + zeros(digits as nat, k as nat),
        decreases width - k,
    {
        push_char(out, '0');
        assert(zeros(digits as nat, (k + 1) as nat) == zeros(digits as nat, k as nat).push('0'));
        k += 1;
    }
    assert(zeros(digits as nat, k as nat) == zeros(decimal(n as nat).len(), width as nat));
    push_decimal(out, n);
    assert(out@ == start + padded(n as nat, width as nat));
}

/// The decimal notation of `n`.
pub fn decimal_text(n: u64) -> (out: String)
    ensures
        out@ == decimal(n as nat),
{
    let mut out = String::new();
    push_decimal(&mut out, n);
    assert(Seq::<char>::empty() + decimal(n as nat) == decimal(n as nat));
    out
}

} // verus!
