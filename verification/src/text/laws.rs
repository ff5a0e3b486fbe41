//! What can be relied on of numbers in words.
use vstd::prelude::*;

verus! {

/// The ten digits.
pub open spec fn digits() -> Seq<char> {
    seq!['0', '1', '2', '3', '4', '5', '6', '7', '8', '9']
}

/// A number is written with its last digit behind what stands for the rest,
/// and without leading zeros.
pub proof fn law_a_number_is_written_digit_by_digit(n: nat, d: int)
    requires
        0 <= d < 10,
    ensures
        super::decimal(d as nat) == seq![digits()[d]],
        n > 0 ==> super::decimal(n * 10 + d as nat) == super::decimal(n).push(digits()[d]),
{
    assert(super::digit(d) == digits()[d]);
    if n > 0 {
        let m = n * 10 + d as nat;
        assert(m / 10 == n && m % 10 == d);
    }
}

pub(crate) proof fn lemma_decimal(n: nat)
    ensures
        super::decimal(n).len() > 0,
        forall|i: int|
            0 <= i < super::decimal(n).len() ==> super::is_digit(#[trigger] super::decimal(n)[i]),
        super::digits_value(super::decimal(n)) == n,
    decreases n,
{
    let s = super::decimal(n);
    if n < 10 {
        reveal_with_fuel(super::digits_value, 2);
        assert(s.drop_last() =~= Seq::empty());
    } else {
        lemma_decimal(n / 10);
        assert(s.drop_last() =~= super::decimal(n / 10));
    }
}

/// A number that was written is read back, with or without a plus sign.
pub proof fn law_a_number_is_read_back(n: u64)
    ensures
        super::number(super::decimal(n as nat)) == Some(n),
        super::number(seq!['+'] + super::decimal(n as nat)) == Some(n),
{
    let s = super::decimal(n as nat);
    lemma_decimal(n as nat);
    assert(super::is_digit(s[0]));
    assert(super::unsigned(s) == s);
    assert(super::unsigned(seq!['+'] + s) =~= s);
}

/// A text with anything in it but digits, behind an optional plus sign, is no
/// number, and neither is an empty one.
pub proof fn law_what_is_no_number_is_refused(s: Seq<char>, i: int)
    ensures
        s.len() == 0 ==> super::number(s) is None,
        s == seq!['+'] ==> super::number(s) is None,
        0 <= i < s.len() && !digits().contains(s[i]) && !(i == 0 && s[0] == '+') ==> super::number(
            s,
        ) is None,
{
    if 0 <= i < s.len() && !digits().contains(s[i]) && !(i == 0 && s[0] == '+') {
        let ds = super::unsigned(s);
        let j = if s[0] == '+' {
            i - 1
        } else {
            i
        };
        assert(ds[j] == s[i]);
        if super::is_digit(s[i]) {
            let d = s[i] as int - 48;
            assert(digits()[d] as int == 48 + d);
            assert(digits()[d] == s[i]);
        }
        assert(!super::is_digit(ds[j]));
    }
}

proof fn lemma_trimmed_start(a: Seq<char>, s: Seq<char>)
    requires
        forall|i: int| 0 <= i < a.len() ==> super::is_space(#[trigger] a[i]),
        s.len() > 0 ==> !super::is_space(s[0]),
    ensures
        super::trimmed_start(a + s) == s,
    decreases a.len(),
{
    if a.len() == 0 {
        assert(a + s =~= s);
    } else {
        assert((a + s)[0] == a[0]);
        assert((a + s).skip(1) =~= a.skip(1) + s);
        assert forall|i: int| 0 <= i < a.skip(1).len() implies super::is_space(
            #[trigger] a.skip(1)[i],
        ) by {
            assert(a.skip(1)[i] == a[i + 1]);
        }
        lemma_trimmed_start(a.skip(1), s);
    }
}

proof fn lemma_trimmed_end(s: Seq<char>, b: Seq<char>)
    requires
        forall|i: int| 0 <= i < b.len() ==> super::is_space(#[trigger] b[i]),
        s.len() > 0 ==> !super::is_space(s.last()),
    ensures
        super::trimmed_end(s + b) == s,
    decreases b.len(),
{
    if b.len() == 0 {
        assert(s + b =~= s);
    } else {
        assert((s + b).last() == b.last());
        assert((s + b).drop_last() =~= s + b.drop_last());
        lemma_trimmed_end(s, b.drop_last());
    }
}

/// Trimming takes away the white space around a text and nothing of the text.
pub proof fn law_trimming_takes_the_space_around(a: Seq<char>, s: Seq<char>, b: Seq<char>)
    requires
        forall|i: int| 0 <= i < a.len() ==> super::is_space(#[trigger] a[i]),
        forall|i: int| 0 <= i < b.len() ==> super::is_space(#[trigger] b[i]),
        s.len() > 0,
        !super::is_space(s[0]),
        !super::is_space(s.last()),
    ensures
        super::trimmed_end(super::trimmed_start(a + s + b)) == s,
{
    assert(a + s + b =~= a + (s + b));
    lemma_trimmed_start(a, s + b);
    lemma_trimmed_end(s, b);
}

} // verus!
