//! Characters, strings and the order of strings: what the rest of the library
//! builds on.

use vstd::prelude::*;
use vstd::std_specs::iter::IteratorSpec;
use vstd::string::StringSliceAdditionalSpecFns;
use vstd::string::StrSliceExecFns;
use vstd::utf8::encode_utf8;

verus! {

/// A blank, a tab, a carriage return or a line feed.
#[verifier::allow_in_spec]
pub fn is_space(c: char) -> bool
    returns
        c == ' ' || c == '\t' || c == '\r' || c == '\n',
{
    c == ' ' || c == '\t' || c == '\r' || c == '\n'
}

/// One of the ten ASCII digits.
#[verifier::allow_in_spec]
pub fn is_digit(c: char) -> bool
    returns
        '0' <= c && c <= '9',
{
    '0' <= c && c <= '9'
}

/// An ASCII letter or an ASCII digit.
#[verifier::allow_in_spec]
pub fn is_alphanumeric(c: char) -> bool
    returns
        ('0' <= c && c <= '9') || ('a' <= c && c <= 'z') || ('A' <= c && c <= 'Z'),
{
    ('0' <= c && c <= '9') || ('a' <= c && c <= 'z') || ('A' <= c && c <= 'Z')
}

/// `c` with an ASCII lower-case letter replaced by its upper-case form.
#[verifier::allow_in_spec]
pub fn ascii_upper(c: char) -> char
    returns
        if 'a' <= c && c <= 'z' {
            ((c as u8) - 32) as char
        } else {
            c
        },
{
    if 'a' <= c && c <= 'z' {
        ((c as u8) - 32) as char
    } else {
        c
    }
}

/// Whether two string slices hold the same characters.
pub fn str_eq(a: &str, b: &str) -> (r: bool)
    ensures
        r == (a@ == b@),
{
    let x = a.as_bytes();
    let y = b.as_bytes();
    proof {
        vstd::utf8::encode_utf8_decode_utf8(a@);
        vstd::utf8::encode_utf8_decode_utf8(b@);
    }
    if x.len() != y.len() {
        return false;
    }
    let mut i: usize = 0;
    while i < x.len()
        invariant
            x@ == a.spec_bytes(),
            y@ == b.spec_bytes(),
            x.len() == y.len(),
            i <= x.len(),
            forall|k: int| 0 <= k < i ==> x@[k] == y@[k],
        decreases x.len() - i,
    {
        if x[i] != y[i] {
            return false;
        }
        i += 1;
    }
    assert(x@ =~= y@);
    true
}

/// The characters of `s`, in order.
pub fn chars_of(s: &str) -> (r: Vec<char>)
    ensures
        r@ == s@,
{
    broadcast use vstd::string::group_string_axioms;

    let mut out: Vec<char> = Vec::new();
    let mut it = s.chars();
    loop
        invariant
            out@ + it.remaining() == s@,
        ensures
            out@ == s@,
        decreases s@.len() - out@.len(),
    {
        match it.next() {
            Some(c) => {
                out.push(c);
            },
            None => {
                break ;
            },
        }
    }
    out
}

/// The characters of `s` from position `from` up to, not including, position
/// `to`, as a string of its own.
pub fn substring(s: &str, from: usize, to: usize) -> (r: String)
    requires
        from <= to <= s@.len(),
    ensures
        r@ == s@.subrange(from as int, to as int),
{
    s.substring_char(from, to).to_owned()
}

/// How one value stands to another in a total order.
#[derive(Clone, Copy, Debug, PartialEq, Eq, Structural)]
pub enum Order {
    Less,
    Equal,
    Greater,
}

/// The order of two integers.
pub open spec fn int_order(a: int, b: int) -> Order {
    if a < b {
        Order::Less
    } else if a == b {
        Order::Equal
    } else {
        Order::Greater
    }
}

/// The lexicographic order of two byte strings: the first position at which
/// they differ decides, and a proper prefix comes before what it is a prefix
/// of.
pub open spec fn bytes_order(a: Seq<u8>, b: Seq<u8>) -> Order
    decreases a.len(),
{
    if a.len() == 0 && b.len() == 0 {
        Order::Equal
    } else if a.len() == 0 {
        Order::Less
    } else if b.len() == 0 {
        Order::Greater
    } else if a[0] != b[0] {
        int_order(a[0] as int, b[0] as int)
    } else {
        bytes_order(a.drop_first(), b.drop_first())
    }
}

/// The order of two texts: that of their UTF-8 encodings, byte by byte.
pub open spec fn text_order(a: Seq<char>, b: Seq<char>) -> Order {
    bytes_order(encode_utf8(a), encode_utf8(b))
}

/// Two byte strings that start alike are ordered as what follows the common
/// start.
pub proof fn lemma_bytes_order_skip(a: Seq<u8>, b: Seq<u8>, n: int)
    requires
        0 <= n <= a.len(),
        n <= b.len(),
        forall|k: int| 0 <= k < n ==> a[k] == b[k],
    ensures
        bytes_order(a, b) == bytes_order(a.skip(n), b.skip(n)),
    decreases n,
{
    if n == 0 {
        assert(a.skip(0) =~= a);
        assert(b.skip(0) =~= b);
    } else {
        lemma_bytes_order_skip(a.drop_first(), b.drop_first(), n - 1);
        assert(a.drop_first().skip(n - 1) =~= a.skip(n));
        assert(b.drop_first().skip(n - 1) =~= b.skip(n));
    }
}

/// Texts are in the order `Equal` exactly when they are the same text.
pub proof fn lemma_text_order_equal(a: Seq<char>, b: Seq<char>)
    ensures
        text_order(a, b) == Order::Equal <==> a == b,
{
    vstd::utf8::encode_utf8_decode_utf8(a);
    vstd::utf8::encode_utf8_decode_utf8(b);
    lemma_bytes_order_equal(encode_utf8(a), encode_utf8(b));
}

/// Byte strings are in the order `Equal` exactly when they are the same.
pub proof fn lemma_bytes_order_equal(a: Seq<u8>, b: Seq<u8>)
    ensures
        bytes_order(a, b) == Order::Equal <==> a == b,
    decreases a.len(),
{
    if a.len() == 0 || b.len() == 0 {
        if a.len() == 0 && b.len() == 0 {
            assert(a =~= b);
        }
    } else if a[0] == b[0] {
        lemma_bytes_order_equal(a.drop_first(), b.drop_first());
        if a.drop_first() == b.drop_first() {
            assert(a =~= seq![a[0]] + a.drop_first());
            assert(b =~= seq![b[0]] + b.drop_first());
        }
    }
}

/// Byte strings taken the other way round are in the opposite order.
pub proof fn lemma_bytes_order_flips(a: Seq<u8>, b: Seq<u8>)
    ensures
        bytes_order(a, b) == Order::Less <==> bytes_order(b, a) == Order::Greater,
        bytes_order(a, b) == Order::Equal <==> bytes_order(b, a) == Order::Equal,
    decreases a.len(),
{
    if a.len() > 0 && b.len() > 0 && a[0] == b[0] {
        lemma_bytes_order_flips(a.drop_first(), b.drop_first());
    }
}

/// What comes before a byte string comes before all that the byte string
/// comes before.
pub proof fn lemma_bytes_order_chains(a: Seq<u8>, b: Seq<u8>, c: Seq<u8>)
    requires
        bytes_order(a, b) == Order::Less,
        bytes_order(b, c) == Order::Less,
    ensures
        bytes_order(a, c) == Order::Less,
    decreases a.len(),
{
    if a.len() > 0 && b.len() > 0 && c.len() > 0 && a[0] == b[0] && b[0] == c[0] {
        lemma_bytes_order_chains(a.drop_first(), b.drop_first(), c.drop_first());
    }
}

/// Texts taken the other way round are in the opposite order.
pub proof fn lemma_text_order_flips(a: Seq<char>, b: Seq<char>)
    ensures
        text_order(a, b) == Order::Less <==> text_order(b, a) == Order::Greater,
        text_order(a, b) == Order::Equal <==> text_order(b, a) == Order::Equal,
{
    lemma_bytes_order_flips(encode_utf8(a), encode_utf8(b));
}

/// What comes before a text comes before all that the text comes before.
pub proof fn lemma_text_order_chains(a: Seq<char>, b: Seq<char>, c: Seq<char>)
    requires
        text_order(a, b) == Order::Less,
        text_order(b, c) == Order::Less,
    ensures
        text_order(a, c) == Order::Less,
{
    lemma_bytes_order_chains(encode_utf8(a), encode_utf8(b), encode_utf8(c));
}

/// Compares two strings as Rust orders strings: by their bytes.
pub fn compare_text(a: &str, b: &str) -> (r: Order)
    ensures
        r == text_order(a@, b@),
{
    let x = a.as_bytes();
    let y = b.as_bytes();
    let mut i: usize = 0;
    while i < x.len() && i < y.len()
        invariant
            x@ == a.spec_bytes(),
            y@ == b.spec_bytes(),
            i <= x.len(),
            i <= y.len(),
            forall|k: int| 0 <= k < i ==> x@[k] == y@[k],
        decreases x.len() - i,
    {
        if x[i] != y[i] {
            proof {
                lemma_bytes_order_skip(x@, y@, i as int);
                assert(x@.skip(i as int)[0] == x@[i as int]);
                assert(y@.skip(i as int)[0] == y@[i as int]);
            }
            return if x[i] < y[i] {
                Order::Less
            } else {
                Order::Greater
            };
        }
        i += 1;
    }
    proof {
        lemma_bytes_order_skip(x@, y@, i as int);
    }
    if i < y.len() {
        Order::Less
    } else if i < x.len() {
        Order::Greater
    } else {
        Order::Equal
    }
}

/// The number that a digit stands for.
pub open spec fn digit_value(c: char) -> int {
    c as int - '0' as int
}

/// The number that a row of digits stands for in base ten; 0 for none.
pub open spec fn digits_value(s: Seq<char>) -> int
    decreases s.len(),
{
    if s.len() == 0 {
        0
    } else {
        digits_value(s.drop_last()) * 10 + digit_value(s.last())
    }
}

/// Every character of `s` is an ASCII digit.
pub open spec fn all_digits(s: Seq<char>) -> bool {
    forall|i: int| 0 <= i < s.len() ==> is_digit(#[trigger] s[i])
}

/// The integer that `s` writes, if it writes one that a 64-bit signed integer
/// can hold: an optional `+` or `-`, then one digit or more and nothing else.
pub open spec fn integer_value(s: Seq<char>) -> Option<int> {
    let signed = s.len() > 0 && (s[0] == '-' || s[0] == '+');
    let digits = if signed {
        s.skip(1)
    } else {
        s
    };
    let magnitude = digits_value(digits);
    let value = if signed && s[0] == '-' {
        -magnitude
    } else {
        magnitude
    };
    if digits.len() > 0 && all_digits(digits) && i64::MIN <= value <= i64::MAX {
        Some(value)
    } else {
        None
    }
}

/// A row of digits stands for at least what any of its beginnings stands for.
pub proof fn lemma_digits_value_grows(s: Seq<char>, n: int)
    requires
        all_digits(s),
        0 <= n <= s.len(),
    ensures
        0 <= digits_value(s.take(n)) <= digits_value(s),
    decreases s.len() - n,
{
    if n == s.len() {
        assert(s.take(n) =~= s);
        lemma_digits_value_nonnegative(s);
    } else {
        lemma_digits_value_grows(s, n + 1);
        assert(s.take(n + 1).drop_last() =~= s.take(n));
        assert(is_digit(s[n]));
        lemma_digits_value_nonnegative(s.take(n));
    }
}

/// A row of digits stands for no negative number.
pub proof fn lemma_digits_value_nonnegative(s: Seq<char>)
    requires
        all_digits(s),
    ensures
        0 <= digits_value(s),
    decreases s.len(),
{
    if s.len() > 0 {
        lemma_digits_value_nonnegative(s.drop_last());
        assert(is_digit(s[s.len() - 1]));
    }
}

/// Reads `s` as a 64-bit signed integer in base ten.
pub fn parse_integer(s: &[char]) -> (r: Option<i64>)
    ensures
        match r {
            Some(v) => integer_value(s@) == Some(v as int),
            None => integer_value(s@) is None,
        },
{
    let n = s.len();
    let signed = n > 0 && (s[0] == '-' || s[0] == '+');
    let negative = signed && s[0] == '-';
    let start: usize = if signed {
        1
    } else {
        0
    };
    if start == n {
        return None;
    }
    let ghost digits = s@.skip(start as int);
    let mut acc: i128 = 0;
    let mut i: usize = start;
    while i < n
        invariant
            start <= i <= n,
            n == s@.len(),
            signed == (s@.len() > 0 && (s@[0] == '-' || s@[0] == '+')),
            start == if signed { 1usize } else { 0usize },
            digits == s@.skip(start as int),
            all_digits(digits.take(i - start)),
            acc == digits_value(digits.take(i - start)),
            0 <= acc <= 0x8000_0000_0000_0000,
        decreases n - i,
    {
        let c = s[i];
        if !is_digit(c) {
            assert(!is_digit(digits[i - start]));
            assert(s@.skip(0) =~= s@);
            return None;
        }
        let d: i128 = (c as u8 - '0' as u8) as i128;
        assert(digits.take(i + 1 - start).drop_last() =~= digits.take(i - start));
        assert(digits.take(i + 1 - start).last() == c);
        acc = acc * 10 + d;
        if acc > 0x8000_0000_0000_0000 {
            proof {
                assert(s@.skip(0) =~= s@);
                if all_digits(digits) {
                    lemma_digits_value_grows(digits, i + 1 - start);
                }
            }
            return None;
        }
        i += 1;
    }
    assert(digits.take(n - start) =~= digits);
    assert(s@.skip(0) =~= s@);
    if negative {
        Some((-acc) as i64)
    } else if acc == 0x8000_0000_0000_0000 {
        None
    } else {
        Some(acc as i64)
    }
}

/// The character that writes a number below ten.
pub open spec fn digit_char(d: int) -> char {
    (d + '0' as int) as u8 as char
}

/// A natural number written in base ten, with no leading zero but for 0
/// itself.
pub open spec fn natural_text(n: nat) -> Seq<char>
    decreases n,
{
    if n < 10 {
        seq![digit_char(n as int)]
    } else {
        natural_text(n / 10).push(digit_char((n % 10) as int))
    }
}

/// An integer written in base ten, with `-` before a negative one.
pub open spec fn decimal_text(i: int) -> Seq<char> {
    if i < 0 {
        seq!['-'] + natural_text((-i) as nat)
    } else {
        natural_text(i as nat)
    }
}

/// A natural number written in base ten is a row of digits that stands for
/// the number.
pub proof fn lemma_natural_text(n: nat)
    ensures
        natural_text(n).len() > 0,
        all_digits(natural_text(n)),
        digits_value(natural_text(n)) == n,
    decreases n,
{
    let s = natural_text(n);
    if n < 10 {
        assert(is_digit(s[0]));
        assert(s.drop_last() =~= Seq::<char>::empty());
        assert(digits_value(s) == digits_value(s.drop_last()) * 10 + digit_value(s.last()));
    } else {
        lemma_natural_text(n / 10);
        let before = natural_text(n / 10);
        assert(s.drop_last() =~= before);
        assert(is_digit(s.last()));
        assert forall|i: int| 0 <= i < s.len() implies is_digit(#[trigger] s[i]) by {
            if i < before.len() {
                assert(s[i] == before[i]);
            }
        }
    }
}

/// An integer that a 64-bit signed integer can hold, written in base ten,
/// reads back as itself.
pub proof fn lemma_decimal_text_reads_back(i: int)
    requires
        i64::MIN <= i <= i64::MAX,
    ensures
        integer_value(decimal_text(i)) == Some(i),
{
    if i < 0 {
        let digits = natural_text((-i) as nat);
        lemma_natural_text((-i) as nat);
        assert(decimal_text(i).skip(1) =~= digits);
    } else {
        lemma_natural_text(i as nat);
        assert(is_digit(natural_text(i as nat)[0]));
    }
}

} // verus!
