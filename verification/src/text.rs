//! Text helpers: comparison, numbers, splitting and trimming.
use vstd::prelude::*;

pub mod laws;

verus! {

/// `String::push` appends one character.
pub assume_specification[ String::push ](s: &mut String, c: char)
    ensures
        final(s)@ == old(s)@.push(c),
;

/// The position of the first `c` in `s`, or the length of `s` if there is none.
pub open spec fn position(s: Seq<char>, c: char) -> int
    decreases s.len(),
{
    if s.len() == 0 || s[0] == c {
        0
    } else {
        1 + position(s.skip(1), c)
    }
}

/// `str::split_once` with a character: what stands before its first
/// occurrence and what stands behind it; none if it does not occur.
#[verifier::external_body]
pub(crate) fn split_once(s: &str, c: char) -> (r: Option<(&str, &str)>)
    ensures
        r is Some <==> position(s@, c) < s@.len(),
        r matches Some((a, b)) ==> {
            &&& a@ == s@.take(position(s@, c))
            &&& b@ == s@.skip(position(s@, c) + 1)
        },
{
    s.split_once(c)
}

/// `std::str::from_utf8`: the text that the bytes encode, if they are UTF-8.
#[verifier::external_body]
pub(crate) fn from_utf8(b: &[u8]) -> (r: Option<&str>)
    ensures
        r is Some <==> vstd::utf8::valid_utf8(b@),
        r matches Some(s) ==> s@ == vstd::utf8::decode_utf8(b@),
{
    std::str::from_utf8(b).ok()
}

/// The text that bytes encode, with what is no UTF-8 replaced.
pub uninterp spec fn lossy_text(b: Seq<u8>) -> Seq<char>;

/// `String::from_utf8_lossy`: the text that the bytes encode; where they are
/// not UTF-8, replacement characters stand for what is not. Which, depends on
/// the bytes alone.
#[verifier::external_body]
pub(crate) fn lossy(b: &[u8]) -> (r: String)
    ensures
        r@ == lossy_text(b@),
        vstd::utf8::valid_utf8(b@) ==> r@ == vstd::utf8::decode_utf8(b@),
{
    String::from_utf8_lossy(b).into_owned()
}

/// Unicode's White_Space characters.
pub open spec fn is_space(c: char) -> bool {
    let n = c as int;
    ||| 0x09 <= n <= 0x0D
    ||| n == 0x20
    ||| n == 0x85
    ||| n == 0xA0
    ||| n == 0x1680
    ||| 0x2000 <= n <= 0x200A
    ||| n == 0x2028
    ||| n == 0x2029
    ||| n == 0x202F
    ||| n == 0x205F
    ||| n == 0x3000
}

/// The text without leading white space.
pub open spec fn trimmed_start(s: Seq<char>) -> Seq<char>
    decreases s.len(),
{
    if s.len() > 0 && is_space(s[0]) {
        trimmed_start(s.skip(1))
    } else {
        s
    }
}

/// The text without trailing white space.
pub open spec fn trimmed_end(s: Seq<char>) -> Seq<char>
    decreases s.len(),
{
    if s.len() > 0 && is_space(s.last()) {
        trimmed_end(s.drop_last())
    } else {
        s
    }
}

/// `str::trim`: the text without leading and trailing white space.
#[verifier::external_body]
pub(crate) fn trim(s: &str) -> (r: &str)
    ensures
        r@ == trimmed_end(trimmed_start(s@)),
{
    s.trim()
}

/// Whether two texts are the same.
pub fn same(a: &str, b: &str) -> (r: bool)
    ensures
        r == (a@ == b@),
{
    let x = a.as_bytes();
    let y = b.as_bytes();
    proof {
        vstd::utf8::encode_utf8_decode_utf8(a@);
        vstd::utf8::encode_utf8_decode_utf8(b@);
    }
    if x.len() != y.len() {
        return false;
    }
    let mut i: usize = 0;
    while i < x.len()
        invariant
            i <= x@.len(),
            x@.len() == y@.len(),
            x@ == vstd::utf8::encode_utf8(a@),
            y@ == vstd::utf8::encode_utf8(b@),
            forall|j: int| 0 <= j < i ==> x@[j] == y@[j],
        decreases x.len() - i,
    {
        if x[i] != y[i] {
            return false;
        }
        i = i + 1;
    }
    assert(x@ =~= y@);
    true
}

/// The decimal digit with value `d`.
pub open spec fn digit(d: int) -> char {
    (48 + d) as char
}

/// A number in decimal, without leading zeros.
pub open spec fn decimal(n: nat) -> Seq<char>
    decreases n,
{
    if n < 10 {
        seq![digit(n as int)]
    } else {
        decimal(n / 10).push(digit((n % 10) as int))
    }
}

/// A number in decimal, without leading zeros.
pub fn decimal_text(n: u64) -> (r: String)
    ensures
        r@ == decimal(n as nat),
    decreases n,
{
    let d: u8 = 48 + (n % 10) as u8;
    assert(d as char == digit((n % 10) as int));
    if n < 10 {
        let mut r = String::new();
        r.push(d as char);
        assert(r@ =~= seq![digit(n as int)]);
        r
    } else {
        let mut r = decimal_text(n / 10);
        r.push(d as char);
        r
    }
}

/// Whether a character is a decimal digit.
pub open spec fn is_digit(c: char) -> bool {
    48 <= c as int <= 57
}

/// The number that digits stand for.
pub open spec fn digits_value(s: Seq<char>) -> nat
    decreases s.len(),
{
    if s.len() == 0 {
        0
    } else {
        digits_value(s.drop_last()) * 10 + (s.last() as nat - 48) as nat
    }
}

/// The text behind an optional plus sign.
pub open spec fn unsigned(s: Seq<char>) -> Seq<char> {
    if s.len() > 0 && s[0] == '+' {
        s.skip(1)
    } else {
        s
    }
}

/// The number that a text stands for: digits, with an optional plus sign
/// before them, that fit in 64 bits.
pub open spec fn number(s: Seq<char>) -> Option<u64> {
    let ds = unsigned(s);
    if ds.len() > 0 && (forall|i: int| 0 <= i < ds.len() ==> is_digit(#[trigger] ds[i]))
        && digits_value(ds) <= u64::MAX {
        Some(digits_value(ds) as u64)
    } else {
        None
    }
}

/// More digits never make a smaller number.
proof fn lemma_digits_grow(s: Seq<char>, n: int)
    requires
        0 <= n <= s.len(),
        forall|i: int| 0 <= i < s.len() ==> is_digit(#[trigger] s[i]),
    ensures
        digits_value(s.take(n)) <= digits_value(s),
    decreases s.len() - n,
{
    if n == s.len() {
        assert(s.take(n) =~= s);
    } else {
        assert(s.take(n + 1).drop_last() =~= s.take(n));
        lemma_digits_grow(s, n + 1);
    }
}

/// The number that a text stands for, if it does for one that fits.
pub fn parse_number(s: &str) -> (r: Option<u64>)
    ensures
        r == number(s@),
{
    if !s.is_ascii() {
        proof {
            let ds = unsigned(s@);
            if forall|i: int| 0 <= i < ds.len() ==> is_digit(#[trigger] ds[i]) {
                assert forall|i: int| 0 <= i < s@.len() implies '\0' <= #[trigger] s@[i]
                    <= '\u{7f}' by {
                    if s@[0] == '+' {
                        if i > 0 {
                            assert(ds[i - 1] == s@[i]);
                        }
                    } else {
                        assert(ds[i] == s@[i]);
                    }
                }
            }
        }
        return None;
    }
    let n: usize = s.unicode_len();
    if n == 0 {
        return None;
    }
    let from: usize = if s.get_ascii(0) == 43 {
        1
    } else {
        0
    };
    let ghost ds = unsigned(s@);
    assert(ds =~= s@.skip(from as int));
    if from == n {
        return None;
    }
    let mut value: u64 = 0;
    let mut i: usize = from;
    assert(ds.take(0) =~= Seq::empty());
    while i < n
        invariant
            from <= i <= n,
            n == s@.len(),
            vstd::string::is_ascii(s),
            ds == s@.skip(from as int),
            ds == unsigned(s@),
            ds.len() > 0,
            forall|j: int| 0 <= j < i - from ==> is_digit(#[trigger] ds[j]),
            value == digits_value(ds.take(i - from)),
        decreases n - i,
    {
        let b: u8 = s.get_ascii(i);
        let ghost k = i - from;
        assert(ds[k] == s@[i as int]);
        assert(ds.take(k + 1).drop_last() =~= ds.take(k));
        assert(ds.take(k + 1).last() == ds[k]);
        if b < 48 || b > 57 {
            assert(!is_digit(ds[k]));
            return None;
        }
        let d: u64 = (b - 48) as u64;
        if value > (u64::MAX - d) / 10 {
            proof {
                assert(value * 10 + d > u64::MAX);
                if forall|j: int| 0 <= j < ds.len() ==> is_digit(#[trigger] ds[j]) {
                    lemma_digits_grow(ds, k + 1);
                }
            }
            return None;
        }
        value = value * 10 + d;
        i = i + 1;
    }
    assert(ds.take(i - from) =~= ds);
    Some(value)
}

/// Bytes read as characters, one for one.
pub open spec fn ascii(b: Seq<u8>) -> Seq<char> {
    b.map_values(|x: u8| x as char)
}

/// Bytes as a text, one character for each.
pub fn ascii_text(b: &[u8]) -> (r: String)
    ensures
        r@ == ascii(b@),
{
    let mut r = String::new();
    let mut i: usize = 0;
    assert(r@ =~= ascii(b@.take(0)));
    while i < b.len()
        invariant
            i <= b@.len(),
            r@ == ascii(b@.take(i as int)),
        decreases b.len() - i,
    {
        let ghost before = r@;
        r.push(b[i] as char);
        assert(r@ =~= ascii(b@.take(i + 1)));
        i = i + 1;
    }
    assert(b@.take(i as int) =~= b@);
    r
}

} // verus!
