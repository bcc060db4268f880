use vstd::prelude::*;

verus! {

/// The decimal digit `d` as a character.
pub open spec fn digit_char(d: nat) -> char {
    ((d + 48) as u8) as char
}

/// The decimal numeral of `n`, without leading zeros.
pub open spec fn decimal(n: nat) -> Seq<char>
    decreases n,
{
    if n < 10 {
        seq![digit_char(n)]
    } else {
        decimal(n / 10).push(digit_char(n % 10))
    }
}

/// The numeral of a signed number: a minus sign before negative ones.
pub open spec fn signed_decimal(n: i64) -> Seq<char> {
    if n < 0 {
        seq!['-'] + decimal((-(n as int)) as nat)
    } else {
        decimal(n as nat)
    }
}

/// The name of chapter `i` of the function called `name`: `name_i`.
pub open spec fn chapter_name(name: Seq<char>, i: nat) -> Seq<char> {
    name + seq!['_'] + decimal(i)
}

/// Relies on String::push: it appends one character.
#[verifier::external_body]
pub(crate) fn push_char(s: &mut String, c: char)
    ensures
        final(s)@ == old(s)@.push(c),
{
    s.push(c);
}

/// Appends the decimal numeral of `n` to `s`.
pub fn push_decimal(s: &mut String, n: u64)
    ensures
        final(s)@ == old(s)@ + decimal(n as nat),
    decreases n,
{
    if n >= 10 {
        push_decimal(s, n / 10);
    }
    let d: u8 = (n % 10) as u8;
    let c = (d + 48) as char;
    push_char(s, c);
    proof {
        assert(c == digit_char((n % 10) as nat));
        if n >= 10 {
            assert(decimal(n as nat) == decimal((n / 10) as nat).push(digit_char((n % 10) as nat)));
        }
    }
    assert(final(s)@ =~= old(s)@ + decimal(n as nat));
}

/// Appends the numeral of `n` to `s`, with a minus sign if it is negative.
pub fn push_signed_decimal(s: &mut String, n: i64)
    ensures
        final(s)@ == old(s)@ + signed_decimal(n),
{
    if n < 0 {
        push_char(s, '-');
        let m: u64 = if n == i64::MIN {
            9223372036854775808u64
        } else {
            (-n) as u64
        };
        push_decimal(s, m);
        assert(final(s)@ =~= old(s)@ + signed_decimal(n));
    } else {
        push_decimal(s, n as u64);
    }
}

/// The name of chapter `chapter_idx` of the function `orig_name`, as in `foo_1`.
pub fn chapter_func_name(orig_name: &str, chapter_idx: usize) -> (r: String)
    ensures
        r@ == chapter_name(orig_name@, chapter_idx as nat),
{
    let mut s = String::from_str(orig_name);
    push_char(&mut s, '_');
    push_decimal(&mut s, chapter_idx as u64);
    assert(s@ =~= chapter_name(orig_name@, chapter_idx as nat));
    s
}

} // verus!
