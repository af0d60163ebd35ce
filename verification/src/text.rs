//! Characters, byte offsets, and decimal numbers.
//!
//! Texts are modelled as sequences of characters. A byte offset into a text is
//! the length of the UTF-8 encoding of the characters in front of it.

use vstd::prelude::*;
use vstd::utf8::*;

verus! {

/// Appending one character to a string.
///
/// `String::push` adds the character at the end and leaves what was there.
pub assume_specification[ String::push ](s: &mut String, c: char)
    ensures
        final(s)@ == old(s)@.push(c),
;

// ---- whitespace ----

/// The Unicode `White_Space` property.
pub open spec fn is_ws(c: char) -> bool {
    let u = c as u32;
    ||| 0x9 <= u <= 0xd
    ||| u == 0x20
    ||| u == 0x85
    ||| u == 0xa0
    ||| u == 0x1680
    ||| 0x2000 <= u <= 0x200a
    ||| u == 0x2028
    ||| u == 0x2029
    ||| u == 0x202f
    ||| u == 0x205f
    ||| u == 0x3000
}

/// Whether a text has no character but whitespace.
pub open spec fn blank(s: Seq<char>) -> bool {
    forall|i: int| 0 <= i < s.len() ==> is_ws(#[trigger] s[i])
}

/// Whether `c` is whitespace.
pub fn is_whitespace(c: char) -> (r: bool)
    ensures
        r == is_ws(c),
{
    let u: u32 = c as u32;
    (0x9 <= u && u <= 0xd) || u == 0x20 || u == 0x85 || u == 0xa0 || u == 0x1680 || (0x2000 <= u && u
        <= 0x200a) || u == 0x2028 || u == 0x2029 || u == 0x202f || u == 0x205f || u == 0x3000
}

/// The characters of `text`, in order.
pub fn chars_of(text: &str) -> (r: Vec<char>)
    ensures
        r@ == text@,
{
    let mut out: Vec<char> = Vec::new();
    for c in it: text.chars()
        invariant
            out@ == text@.take(it.index() as int),
            it.seq() == text@,
    {
        out.push(c);
        assert(text@.take(it.index() as int).push(c) =~= text@.take(it.index() as int + 1));
    }
    assert(text@.take(text@.len() as int) =~= text@);
    out
}

/// Whether `text` has no character but whitespace.
pub fn is_blank(text: &str) -> (r: bool)
    ensures
        r == blank(text@),
{
    let chars = chars_of(text);
    assert(chars@.subrange(0, chars@.len() as int) =~= chars@);
    is_blank_range(&chars, 0, chars.len())
}

/// Whether the characters from `lo` up to `hi` are all whitespace.
pub fn is_blank_range(chars: &Vec<char>, lo: usize, hi: usize) -> (r: bool)
    requires
        lo <= hi <= chars@.len(),
    ensures
        r == blank(chars@.subrange(lo as int, hi as int)),
{
    let mut i: usize = lo;
    while i < hi
        invariant
            lo <= i <= hi <= chars@.len(),
            forall|k: int| lo <= k < i ==> is_ws(#[trigger] chars@[k]),
        decreases hi - i,
    {
        if !is_whitespace(chars[i]) {
            assert(chars@.subrange(lo as int, hi as int)[i - lo] == chars@[i as int]);
            return false;
        }
        i += 1;
    }
    true
}

/// A text without the whitespace at its start and end.
pub open spec fn trimmed(s: Seq<char>) -> Seq<char>
    decreases s.len(),
{
    if s.len() == 0 {
        s
    } else if is_ws(s[0]) {
        trimmed(s.skip(1))
    } else if is_ws(s.last()) {
        trimmed(s.drop_last())
    } else {
        s
    }
}

/// The characters from `lo` up to `hi` as a string.
pub fn string_of(chars: &Vec<char>, lo: usize, hi: usize) -> (r: String)
    requires
        lo <= hi <= chars@.len(),
    ensures
        r@ == chars@.subrange(lo as int, hi as int),
{
    let mut out = String::new();
    let mut i: usize = lo;
    assert(out@ =~= chars@.subrange(lo as int, lo as int));
    while i < hi
        invariant
            lo <= i <= hi <= chars@.len(),
            out@ == chars@.subrange(lo as int, i as int),
        decreases hi - i,
    {
        out.push(chars[i]);
        assert(out@ =~= chars@.subrange(lo as int, i + 1));
        i += 1;
    }
    out
}

/// `text` without the whitespace at its start and end.
pub fn trim(text: &str) -> (r: String)
    ensures
        r@ == trimmed(text@),
{
    let chars = chars_of(text);
    let mut lo: usize = 0;
    let mut hi: usize = chars.len();
    assert(chars@.subrange(0, hi as int) =~= text@);
    while lo < hi && is_whitespace(chars[lo])
        invariant
            lo <= hi <= chars@.len(),
            trimmed(chars@.subrange(lo as int, hi as int)) == trimmed(text@),
        decreases hi - lo,
    {
        let ghost s = chars@.subrange(lo as int, hi as int);
        assert(s[0] == chars@[lo as int]);
        assert(s.skip(1) =~= chars@.subrange(lo + 1, hi as int));
        lo += 1;
    }
    while lo < hi && is_whitespace(chars[hi - 1])
        invariant
            lo <= hi <= chars@.len(),
            lo < hi ==> !is_ws(chars@[lo as int]),
            trimmed(chars@.subrange(lo as int, hi as int)) == trimmed(text@),
        decreases hi - lo,
    {
        let ghost s = chars@.subrange(lo as int, hi as int);
        assert(s.last() == chars@[hi - 1]);
        assert(s[0] == chars@[lo as int]);
        assert(s.drop_last() =~= chars@.subrange(lo as int, hi - 1));
        hi -= 1;
    }
    proof {
        let s = chars@.subrange(lo as int, hi as int);
        if lo < hi {
            assert(s.last() == chars@[hi - 1]);
            assert(s[0] == chars@[lo as int]);
        }
    }
    string_of(&chars, lo, hi)
}

/// A text with another text in place of each `c`.
pub open spec fn replaced(s: Seq<char>, c: char, with: Seq<char>) -> Seq<char>
    decreases s.len(),
{
    if s.len() == 0 {
        s
    } else {
        replaced(s.drop_last(), c, with) + if s.last() == c {
            with
        } else {
            seq![s.last()]
        }
    }
}

/// `text` with `with` in place of each `c`.
pub fn replace(text: &str, c: char, with: &str) -> (r: String)
    ensures
        r@ == replaced(text@, c, with@),
{
    let chars = chars_of(text);
    let mut out = String::new();
    let mut i: usize = 0;
    assert(out@ =~= text@.take(0));
    while i < chars.len()
        invariant
            i <= chars@.len(),
            chars@ == text@,
            out@ == replaced(text@.take(i as int), c, with@),
        decreases chars@.len() - i,
    {
        assert(text@.take(i + 1).drop_last() =~= text@.take(i as int));
        let ghost before = out@;
        if chars[i] == c {
            out.append(with);
        } else {
            out.push(chars[i]);
            assert(out@ =~= before + seq![chars@[i as int]]);
        }
        i += 1;
    }
    assert(text@.take(text@.len() as int) =~= text@);
    out
}

// ---- byte offsets ----

/// The number of bytes that the UTF-8 encoding of `s` takes.
pub open spec fn byte_len(s: Seq<char>) -> nat {
    encode_utf8(s).len()
}

/// The byte offset of the character at index `i`.
pub open spec fn byte_offset(s: Seq<char>, i: int) -> nat {
    byte_len(s.take(i))
}

pub proof fn lemma_encode_concat(a: Seq<char>, b: Seq<char>)
    ensures
        encode_utf8(a + b) == encode_utf8(a) + encode_utf8(b),
    decreases a.len(),
{
    if a.len() == 0 {
        assert(a + b =~= b);
        assert(encode_utf8(a) =~= Seq::<u8>::empty());
        assert(encode_utf8(a) + encode_utf8(b) =~= encode_utf8(b));
    } else {
        lemma_encode_concat(a.drop_first(), b);
        assert((a + b).drop_first() =~= a.drop_first() + b);
        assert((a + b)[0] == a[0]);
        assert(encode_utf8(a + b) =~= encode_utf8(a) + encode_utf8(b));
    }
}

pub proof fn lemma_encode_one(c: char)
    ensures
        encode_utf8(seq![c]) == encode_scalar(c as u32),
        1 <= encode_utf8(seq![c]).len() <= 4,
{
    reveal_with_fuel(encode_utf8, 2);
    char_is_scalar(c);
    assert(seq![c].drop_first() =~= Seq::<char>::empty());
    assert(encode_utf8(seq![c]) =~= encode_scalar(c as u32));
}

pub proof fn lemma_offset_step(s: Seq<char>, i: int)
    requires
        0 <= i < s.len(),
    ensures
        byte_offset(s, i + 1) == byte_offset(s, i) + encode_scalar(s[i] as u32).len(),
        byte_offset(s, i) < byte_offset(s, i + 1),
{
    assert(s.take(i + 1) =~= s.take(i) + seq![s[i]]);
    lemma_encode_concat(s.take(i), seq![s[i]]);
    lemma_encode_one(s[i]);
}

pub proof fn lemma_offset_monotone(s: Seq<char>, i: int, j: int)
    requires
        0 <= i <= j <= s.len(),
    ensures
        byte_offset(s, i) + (j - i) <= byte_offset(s, j),
    decreases j - i,
{
    if i < j {
        lemma_offset_monotone(s, i, j - 1);
        lemma_offset_step(s, j - 1);
    }
}

pub proof fn lemma_offset_ends(s: Seq<char>)
    ensures
        byte_offset(s, 0) == 0,
        byte_offset(s, s.len() as int) == byte_len(s),
{
    assert(s.take(0) =~= Seq::<char>::empty());
    assert(s.take(s.len() as int) =~= s);
}

pub proof fn lemma_encode_subrange(s: Seq<char>, i: int, j: int)
    requires
        0 <= i <= j <= s.len(),
    ensures
        encode_utf8(s.subrange(i, j)) == encode_utf8(s).subrange(
            byte_offset(s, i) as int,
            byte_offset(s, j) as int,
        ),
        byte_offset(s, i) <= byte_offset(s, j) <= byte_len(s),
{
    assert(s =~= s.take(j) + s.skip(j));
    lemma_encode_concat(s.take(j), s.skip(j));
    assert(s.take(j) =~= s.take(i) + s.subrange(i, j));
    lemma_encode_concat(s.take(i), s.subrange(i, j));
    assert(encode_utf8(s.subrange(i, j)) =~= encode_utf8(s).subrange(
        byte_offset(s, i) as int,
        byte_offset(s, j) as int,
    ));
}

proof fn lemma_boundary_concat(a: Seq<char>, b: Seq<char>)
    ensures
        is_char_boundary(encode_utf8(a + b), byte_len(a) as int),
    decreases a.len(),
{
    encode_utf8_valid_utf8(a + b);
    lemma_encode_concat(a, b);
    if a.len() > 0 {
        encode_utf8_first_scalar(a + b);
        assert((a + b).drop_first() =~= a.drop_first() + b);
        assert((a + b)[0] == a[0]);
        lemma_boundary_concat(a.drop_first(), b);
        assert(pop_first_scalar(encode_utf8(a + b)) =~= encode_utf8((a + b).drop_first()));
        char_is_scalar(a[0]);
    }
}

pub proof fn lemma_boundary(s: Seq<char>, i: int)
    requires
        0 <= i <= s.len(),
    ensures
        is_char_boundary(encode_utf8(s), byte_offset(s, i) as int),
{
    assert(s =~= s.take(i) + s.skip(i));
    lemma_boundary_concat(s.take(i), s.skip(i));
}

pub proof fn lemma_encode_injective(a: Seq<char>, b: Seq<char>)
    requires
        encode_utf8(a) == encode_utf8(b),
    ensures
        a == b,
{
    encode_utf8_decode_utf8(a);
    encode_utf8_decode_utf8(b);
}

/// The number of bytes of `c` in UTF-8.
pub fn char_width(c: char) -> (r: usize)
    ensures
        r == encode_scalar(c as u32).len(),
        1 <= r <= 4,
{
    proof {
        char_is_scalar(c);
    }
    let u: u32 = c as u32;
    if u <= 0x7f {
        1
    } else if u <= 0x7ff {
        2
    } else if u <= 0xffff {
        3
    } else {
        4
    }
}

/// The byte offset of each character of `text`, followed by the byte length of
/// the whole.
pub fn byte_offsets(text: &str, chars: &Vec<char>) -> (r: Vec<usize>)
    requires
        chars@ == text@,
    ensures
        r@.len() == text@.len() + 1,
        forall|i: int| 0 <= i <= text@.len() ==> (#[trigger] r@[i]) as nat == byte_offset(text@, i),
{
    let total: usize = text.as_bytes().len();
    let mut out: Vec<usize> = Vec::new();
    let mut at: usize = 0;
    let mut i: usize = 0;
    proof {
        lemma_offset_ends(text@);
    }
    out.push(0);
    while i < chars.len()
        invariant
            i <= chars@.len(),
            chars@ == text@,
            total == byte_len(text@),
            at as nat == byte_offset(text@, i as int),
            out@.len() == i + 1,
            forall|k: int| 0 <= k <= i ==> (#[trigger] out@[k]) as nat == byte_offset(text@, k),
        decreases chars@.len() - i,
    {
        proof {
            lemma_offset_step(text@, i as int);
            lemma_offset_monotone(text@, i as int + 1, text@.len() as int);
            lemma_offset_ends(text@);
        }
        at += char_width(chars[i]);
        out.push(at);
        i += 1;
    }
    out
}

/// The part of `text` between two byte offsets that stand at the characters
/// `i` and `j`.
pub fn slice<'a>(
    text: &'a str,
    start: usize,
    end: usize,
    Ghost(i): Ghost<int>,
    Ghost(j): Ghost<int>,
) -> (r: &'a str)
    requires
        0 <= i <= j <= text@.len(),
        start as nat == byte_offset(text@, i),
        end as nat == byte_offset(text@, j),
    ensures
        r@ == text@.subrange(i, j),
{
    proof {
        lemma_boundary(text@, j);
        lemma_encode_subrange(text@, 0, j);
        lemma_offset_ends(text@);
        assert(text@.subrange(0, j) =~= text@.take(j));
    }
    let head = text.split_at(end).0;
    proof {
        lemma_encode_injective(head@, text@.take(j));
        lemma_boundary(head@, i);
        assert(head@.take(i) =~= text@.take(i));
        lemma_encode_subrange(head@, i, j);
        lemma_offset_ends(head@);
        assert(head@.subrange(i, j) =~= text@.subrange(i, j));
    }
    let tail = head.split_at(start).1;
    proof {
        lemma_encode_injective(tail@, text@.subrange(i, j));
    }
    tail
}

// ---- decimal numbers ----

/// The digit `d`, for `d` below ten.
pub open spec fn digit(d: nat) -> char {
    (48 + d) as char
}

pub open spec fn is_digit(c: char) -> bool {
    48 <= c as u32 <= 57
}

/// The decimal digits of `n`, without leading zeros.
pub open spec fn decimal(n: nat) -> Seq<char>
    decreases n,
{
    if n < 10 {
        seq![digit(n)]
    } else {
        decimal(n / 10).push(digit(n % 10))
    }
}

/// The number that a run of digits stands for.
pub open spec fn digits_value(s: Seq<char>) -> nat
    decreases s.len(),
{
    if s.len() == 0 {
        0
    } else {
        digits_value(s.drop_last()) * 10 + ((s.last() as u32 - 48) as nat)
    }
}

pub open spec fn all_digits(s: Seq<char>) -> bool {
    forall|i: int| 0 <= i < s.len() ==> is_digit(#[trigger] s[i])
}

/// The number that `s` stands for: one or more digits, with or without a plus
/// sign in front, as far as a `usize` can hold it.
pub open spec fn parsed(s: Seq<char>) -> Option<usize> {
    let d = if s.len() > 0 && s[0] == '+' {
        s.drop_first()
    } else {
        s
    };
    if d.len() > 0 && all_digits(d) && digits_value(d) <= usize::MAX {
        Some(digits_value(d) as usize)
    } else {
        None
    }
}

pub proof fn lemma_decimal_value(n: nat)
    ensures
        decimal(n).len() > 0,
        all_digits(decimal(n)),
        digits_value(decimal(n)) == n,
    decreases n,
{
    if n < 10 {
        reveal_with_fuel(digits_value, 2);
        assert(decimal(n).drop_last() =~= Seq::<char>::empty());
    } else {
        lemma_decimal_value(n / 10);
        assert(decimal(n).drop_last() =~= decimal(n / 10));
        assert forall|i: int| 0 <= i < decimal(n).len() implies is_digit(#[trigger] decimal(n)[i]) by {
            if i < decimal(n / 10).len() {
                assert(decimal(n)[i] == decimal(n / 10)[i]);
            }
        }
    }
}

/// Reading a number back from its decimal digits gives the number.
pub proof fn law_decimal_round_trip(n: usize)
    ensures
        parsed(decimal(n as nat)) == Some(n),
{
    lemma_decimal_value(n as nat);
    assert(is_digit(decimal(n as nat)[0]));
}

proof fn lemma_digits_grow(s: Seq<char>, i: int)
    requires
        0 <= i <= s.len(),
    ensures
        digits_value(s.take(i)) <= digits_value(s),
    decreases s.len() - i,
{
    if i < s.len() {
        lemma_digits_grow(s, i + 1);
        assert(s.take(i + 1).drop_last() =~= s.take(i));
    } else {
        assert(s.take(i) =~= s);
    }
}

/// Appends the decimal digits of `n`.
pub fn push_decimal(out: &mut String, n: u128)
    ensures
        final(out)@ == old(out)@ + decimal(n as nat),
    decreases n,
{
    if n >= 10 {
        push_decimal(out, n / 10);
    }
    let d: u8 = (n % 10) as u8;
    let c: char = (48 + d) as char;
    out.push(c);
    assert(out@ =~= old(out)@ + decimal(n as nat));
}

/// The decimal digits of `n`.
pub fn to_decimal(n: u128) -> (r: String)
    ensures
        r@ == decimal(n as nat),
{
    let mut out = String::new();
    push_decimal(&mut out, n);
    assert(out@ =~= decimal(n as nat));
    out
}

/// Reads a number from the characters `lo..hi`.
pub fn parse_usize(chars: &Vec<char>, lo: usize, hi: usize) -> (r: Option<usize>)
    requires
        lo <= hi <= chars@.len(),
    ensures
        r == parsed(chars@.subrange(lo as int, hi as int)),
{
    let ghost s = chars@.subrange(lo as int, hi as int);
    let from: usize = if lo < hi && chars[lo] == '+' {
        lo + 1
    } else {
        lo
    };
    let ghost d = chars@.subrange(from as int, hi as int);
    assert(s.len() > 0 && s[0] == '+' ==> d =~= s.drop_first());
    if from == hi {
        return None;
    }
    let mut value: usize = 0;
    let mut i: usize = from;
    assert(d.take(0) =~= Seq::<char>::empty());
    while i < hi
        invariant
            lo <= from <= i <= hi <= chars@.len(),
            s == chars@.subrange(lo as int, hi as int),
            d == chars@.subrange(from as int, hi as int),
            forall|k: int| 0 <= k < i - from ==> is_digit(#[trigger] d[k]),
            value == digits_value(d.take(i - from)),
            parsed(s) == if all_digits(d) && digits_value(d) <= usize::MAX {
                Some(digits_value(d) as usize)
            } else {
                None
            },
        decreases hi - i,
    {
        let u: u32 = chars[i] as u32;
        assert(d[i - from] == chars@[i as int]);
        if u < 48 || u > 57 {
            assert(!is_digit(d[i - from]));
            return None;
        }
        proof {
            lemma_digits_grow(d, i - from + 1);
            assert(d.take(i - from + 1).drop_last() =~= d.take(i - from));
        }
        let v: usize = (u - 48) as usize;
        if value > (usize::MAX - v) / 10 {
            return None;
        }
        value = value * 10 + v;
        i += 1;
    }
    assert(d.take(i - from) =~= d);
    Some(value)
}

// ---- comparing and joining ----

/// Whether two texts are the same.
pub fn same(a: &str, b: &str) -> (r: bool)
    ensures
        r == (a@ == b@),
{
    let x: &[u8] = a.as_bytes();
    let y: &[u8] = b.as_bytes();
    if x.len() != y.len() {
        return false;
    }
    let mut i: usize = 0;
    while i < x.len()
        invariant
            i <= x@.len(),
            x@.len() == y@.len(),
            x@ == encode_utf8(a@),
            y@ == encode_utf8(b@),
            forall|k: int| 0 <= k < i ==> x@[k] == y@[k],
        decreases x@.len() - i,
    {
        if x[i] != y[i] {
            return false;
        }
        i += 1;
    }
    proof {
        assert(x@ =~= y@);
        lemma_encode_injective(a@, b@);
    }
    true
}

/// Whether `s` starts with `prefix`.
pub fn starts_with(s: &str, prefix: &str) -> (r: bool)
    ensures
        r == prefix@.is_prefix_of(s@),
{
    let a = chars_of(s);
    let b = chars_of(prefix);
    if b.len() > a.len() {
        return false;
    }
    let mut i: usize = 0;
    while i < b.len()
        invariant
            i <= b@.len() <= a@.len(),
            a@ == s@,
            b@ == prefix@,
            forall|k: int| 0 <= k < i ==> a@[k] == b@[k],
        decreases b@.len() - i,
    {
        if a[i] != b[i] {
            assert(s@.subrange(0, b@.len() as int)[i as int] == a@[i as int]);
            return false;
        }
        i += 1;
    }
    assert(b@ =~= a@.subrange(0, b@.len() as int));
    true
}

/// Whether `part` is a stretch of `s`.
pub open spec fn occurs_in(part: Seq<char>, s: Seq<char>) -> bool {
    exists|p: int, q: int| 0 <= p <= q <= s.len() && #[trigger] s.subrange(p, q) == part
}

/// Whether `part` is a stretch of `s`.
pub fn contains(s: &str, part: &str) -> (r: bool)
    ensures
        r == occurs_in(part@, s@),
{
    let chars = chars_of(s);
    let wanted = chars_of(part);
    let mut p: usize = 0;
    while wanted.len() <= chars.len() - p
        invariant
            chars@ == s@,
            wanted@ == part@,
            p <= chars@.len(),
            forall|i: int| 0 <= i < p ==> #[trigger] s@.subrange(i, i + part@.len()) != part@,
        decreases chars@.len() - p,
    {
        let mut k: usize = 0;
        while k < wanted.len() && chars[p + k] == wanted[k]
            invariant
                chars@ == s@,
                wanted@ == part@,
                p + wanted@.len() <= chars@.len(),
                chars@.len() <= usize::MAX,
                k <= wanted@.len(),
                forall|j: int| 0 <= j < k ==> s@[p + j] == #[trigger] part@[j],
            decreases wanted@.len() - k,
        {
            k += 1;
        }
        let ghost here = s@.subrange(p as int, p + part@.len());
        if k == wanted.len() {
            assert(here =~= part@);
            return true;
        }
        assert(here[k as int] == s@[p + k]);
        p += 1;
    }
    proof {
        if occurs_in(part@, s@) {
            let (i, j) = choose|i: int, j: int|
                0 <= i <= j <= s@.len() && #[trigger] s@.subrange(i, j) == part@;
            assert(j == i + part@.len());
        }
    }
    false
}

/// `a` followed by `b`.
pub fn concat(a: &str, b: &str) -> (r: String)
    ensures
        r@ == a@ + b@,
{
    let mut out = a.to_string();
    out.append(b);
    out
}

/// `a`, `b` and `c` in a row.
pub fn concat3(a: &str, b: &str, c: &str) -> (r: String)
    ensures
        r@ == a@ + b@ + c@,
{
    let mut out = a.to_string();
    out.append(b);
    out.append(c);
    out
}

/// The views of a list of strings.
pub open spec fn views(list: Seq<String>) -> Seq<Seq<char>> {
    list.map_values(|s: String| s@)
}

/// The parts, with `sep` between each two.
pub open spec fn joined(parts: Seq<Seq<char>>, sep: Seq<char>) -> Seq<char>
    decreases parts.len(),
{
    if parts.len() == 0 {
        Seq::empty()
    } else if parts.len() == 1 {
        parts[0]
    } else {
        joined(parts.drop_last(), sep) + sep + parts.last()
    }
}

/// The parts, with `sep` between each two.
pub fn join(parts: &Vec<String>, sep: &str) -> (r: String)
    ensures
        r@ == joined(views(parts@), sep@),
{
    let mut out = String::new();
    let ghost all = views(parts@);
    let mut i: usize = 0;
    assert(all.take(0) =~= Seq::empty());
    while i < parts.len()
        invariant
            i <= parts@.len(),
            all == views(parts@),
            out@ == joined(all.take(i as int), sep@),
        decreases parts@.len() - i,
    {
        assert(all.take(i + 1).drop_last() =~= all.take(i as int));
        assert(all.take(i + 1).last() == parts@[i as int]@);
        if i > 0 {
            out.append(sep);
        }
        let ghost before = out@;
        out.append(parts[i].as_str());
        if i == 0 {
            assert(out@ =~= parts@[0]@);
        }
        i += 1;
    }
    assert(all.take(i as int) =~= all);
    out
}

// ---- what these texts are made of ----

/// Whitespace is the tab, the line and page breaks, the spaces of Unicode, and
/// nothing else.
pub proof fn law_whitespace(c: char)
    ensures
        is_ws(c) <==> {
            ||| c == '\t'
            ||| c == '\n'
            ||| c == '\u{b}'
            ||| c == '\u{c}'
            ||| c == '\r'
            ||| c == ' '
            ||| c == '\u{85}'
            ||| c == '\u{a0}'
            ||| c == '\u{1680}'
            ||| c == '\u{2000}'
            ||| c == '\u{2001}'
            ||| c == '\u{2002}'
            ||| c == '\u{2003}'
            ||| c == '\u{2004}'
            ||| c == '\u{2005}'
            ||| c == '\u{2006}'
            ||| c == '\u{2007}'
            ||| c == '\u{2008}'
            ||| c == '\u{2009}'
            ||| c == '\u{200a}'
            ||| c == '\u{2028}'
            ||| c == '\u{2029}'
            ||| c == '\u{202f}'
            ||| c == '\u{205f}'
            ||| c == '\u{3000}'
        },
{
}

/// A trimmed text is the stretch of the text from its first to its last
/// character that is no whitespace. The result gives where it stands.
pub proof fn law_trimming_takes_the_ends(s: Seq<char>) -> (at: (int, int))
    ensures
        0 <= at.0 <= at.1 <= s.len(),
        trimmed(s) == s.subrange(at.0, at.1),
        forall|i: int| 0 <= i < at.0 ==> is_ws(#[trigger] s[i]),
        forall|i: int| at.1 <= i < s.len() ==> is_ws(#[trigger] s[i]),
        at.0 < at.1 ==> !is_ws(s[at.0]) && !is_ws(s[at.1 - 1]),
    decreases s.len(),
{
    if s.len() == 0 {
        assert(s.subrange(0, 0) =~= s);
        (0, 0)
    } else if is_ws(s[0]) {
        let rest = s.skip(1);
        let at = law_trimming_takes_the_ends(rest);
        assert(rest.subrange(at.0, at.1) =~= s.subrange(at.0 + 1, at.1 + 1));
        assert forall|i: int| 0 <= i < at.0 + 1 implies is_ws(#[trigger] s[i]) by {
            if i > 0 {
                assert(rest[i - 1] == s[i]);
            }
        }
        assert forall|i: int| at.1 + 1 <= i < s.len() implies is_ws(#[trigger] s[i]) by {
            assert(rest[i - 1] == s[i]);
        }
        (at.0 + 1, at.1 + 1)
    } else if is_ws(s.last()) {
        let rest = s.drop_last();
        let at = law_trimming_takes_the_ends(rest);
        assert(rest.subrange(at.0, at.1) =~= s.subrange(at.0, at.1));
        assert forall|i: int| 0 <= i < at.0 implies is_ws(#[trigger] s[i]) by {
            assert(rest[i] == s[i]);
        }
        assert forall|i: int| at.1 <= i < s.len() implies is_ws(#[trigger] s[i]) by {
            if i < rest.len() {
                assert(rest[i] == s[i]);
            }
        }
        at
    } else {
        assert(s.subrange(0, s.len() as int) =~= s);
        (0, s.len() as int)
    }
}

/// Replacing goes character by character: each `c` becomes `with`, and every
/// other character stays.
pub proof fn law_replacing_goes_by_character(a: Seq<char>, b: Seq<char>, c: char, with: Seq<char>)
    ensures
        replaced(Seq::empty(), c, with) == Seq::<char>::empty(),
        replaced(seq![c], c, with) == with,
        forall|d: char| d != c ==> #[trigger] replaced(seq![d], c, with) == seq![d],
        replaced(a + b, c, with) == replaced(a, c, with) + replaced(b, c, with),
    decreases b.len(),
{
    let none = Seq::<char>::empty();
    assert(replaced(none, c, with) =~= none);
    assert forall|d: char| #![trigger replaced(seq![d], c, with)]
        replaced(seq![d], c, with) == if d == c {
            with
        } else {
            seq![d]
        } by {
        assert(seq![d].drop_last() =~= none);
        assert(seq![d].last() == d);
        assert(none + with =~= with);
        assert(none + seq![d] =~= seq![d]);
    }
    if b.len() == 0 {
        assert(a + b =~= a);
        assert(replaced(a, c, with) + replaced(b, c, with) =~= replaced(a, c, with));
    } else {
        law_replacing_goes_by_character(a, b.drop_last(), c, with);
        assert((a + b).drop_last() =~= a + b.drop_last());
        assert((a + b).last() == b.last());
        assert(replaced(a + b, c, with) =~= replaced(a, c, with) + replaced(b, c, with));
    }
}

/// Joined parts stand one behind the other with the separator between each two,
/// and none before the first or behind the last.
pub proof fn law_joining(parts: Seq<Seq<char>>, part: Seq<char>, sep: Seq<char>)
    ensures
        joined(Seq::empty(), sep) == Seq::<char>::empty(),
        joined(seq![part], sep) == part,
        parts.len() > 0 ==> joined(parts.push(part), sep) == joined(parts, sep) + sep + part,
{
    assert(parts.push(part).drop_last() =~= parts);
}

/// Decimal digits are the ten of ASCII.
pub proof fn law_digits(c: char)
    ensures
        is_digit(c) <==> {
            ||| c == '0'
            ||| c == '1'
            ||| c == '2'
            ||| c == '3'
            ||| c == '4'
            ||| c == '5'
            ||| c == '6'
            ||| c == '7'
            ||| c == '8'
            ||| c == '9'
        },
{
}

/// A number below ten is written as one digit, and any other as its tenth and one
/// digit more, for what is left of it.
pub proof fn law_decimal_is_by_tens(n: nat)
    ensures
        n < 10 ==> decimal(n).len() == 1 && decimal(n)[0] as int == '0' as int + n,
        n >= 10 ==> decimal(n).drop_last() == decimal(n / 10) && decimal(n).last() as int
            == '0' as int + n % 10,
{
    lemma_decimal_value(n);
    assert(is_digit(decimal(n)[decimal(n).len() - 1]));
    if n >= 10 {
        assert(decimal(n).drop_last() =~= decimal(n / 10));
    }
}

/// Reading a number takes a digit at a time, each worth a tenth of the one before
/// it. A plus sign may stand in front. Without a digit there is no number, nor
/// with anything else among them, nor where it is too large.
pub proof fn law_reading_is_by_tens(s: Seq<char>, c: char)
    ensures
        digits_value(Seq::empty()) == 0,
        is_digit(c) ==> digits_value(s.push(c)) == 10 * digits_value(s) + (c as int - '0' as int),
        s.len() == 0 ==> parsed(s) is None,
        s.len() > 0 && s[0] == '+' && !(s.len() > 1 && s[1] == '+') ==> parsed(s) == parsed(
            s.drop_first(),
        ),
        s.len() > 1 && s[0] == '+' && s[1] == '+' ==> parsed(s) is None,
        s.len() > 0 && s[0] != '+' ==> (parsed(s) is Some <==> digits_value(s) <= usize::MAX && (
        forall|i: int| 0 <= i < s.len() ==> is_digit(#[trigger] s[i]))),
        s.len() > 0 && s[0] != '+' && parsed(s) is Some ==> parsed(s)->0 == digits_value(s),
{
    assert(s.push(c).drop_last() =~= s);
    if s.len() > 1 && s[0] == '+' {
        assert(s.drop_first()[0] == s[1]);
        if s[1] == '+' {
            assert(!is_digit(s.drop_first()[0]));
        }
    }
}

/// A text occurs in another exactly if it is a stretch of it.
pub proof fn law_occurrence_is_a_stretch(part: Seq<char>, s: Seq<char>)
    ensures
        occurs_in(part, s) <==> exists|i: int|
            0 <= i && i + part.len() <= s.len() && #[trigger] s.subrange(i, i + part.len()) == part,
{
    if occurs_in(part, s) {
        let (p, q) = choose|p: int, q: int|
            0 <= p <= q <= s.len() && #[trigger] s.subrange(p, q) == part;
        assert(s.subrange(p, p + part.len()) == part);
    }
}

} // verus!
