use vstd::prelude::*;

verus! {

pub open spec fn is_digit(c: u8) -> bool {
    0x30 <= c <= 0x39
}

pub open spec fn all_digits(s: Seq<u8>) -> bool {
    forall|i: int| 0 <= i < s.len() ==> is_digit(#[trigger] s[i])
}

/// The number that a string of decimal digits writes.
pub open spec fn digits_value(s: Seq<u8>) -> nat
    decreases s.len(),
{
    if s.len() == 0 {
        0
    } else {
        digits_value(s.drop_last()) * 10 + (s.last() - 0x30) as nat
    }
}

/// The `w` lowest decimal digits of `v`, most significant first.
pub open spec fn digits_of(v: nat, w: nat) -> Seq<u8>
    decreases w,
{
    if w == 0 {
        Seq::empty()
    } else {
        digits_of(v / 10, (w - 1) as nat).push((v % 10 + 0x30) as u8)
    }
}

pub open spec fn pow10(n: nat) -> nat
    decreases n,
{
    if n == 0 {
        1
    } else {
        10 * pow10((n - 1) as nat)
    }
}

/// What a numeric field of digits holds, where it fits in 16 bits.
pub open spec fn number_of(s: Seq<u8>) -> Option<u16> {
    if all_digits(s) && digits_value(s) <= u16::MAX {
        Some(digits_value(s) as u16)
    } else {
        None
    }
}

/// A one-byte count that reads as `default` when left blank.
pub open spec fn count_of(b: u8, default: u8) -> Option<u8> {
    if b == 0x20 {
        Some(default)
    } else if is_digit(b) {
        Some((b - 0x30) as u8)
    } else {
        None
    }
}

/// Writing the value of a digit string back in as many digits gives it again.
pub proof fn lemma_digits_round_trip(s: Seq<u8>)
    requires
        all_digits(s),
    ensures
        digits_of(digits_value(s), s.len()) == s,
    decreases s.len(),
{
    if s.len() > 0 {
        let p = s.drop_last();
        assert(all_digits(p)) by {
            assert forall|i: int| 0 <= i < p.len() implies is_digit(#[trigger] p[i]) by {
                assert(p[i] == s[i]);
            }
        }
        lemma_digits_round_trip(p);
        assert(is_digit(s[s.len() - 1]));
        let d = (s.last() - 0x30) as nat;
        let a = digits_value(p);
        let v = a * 10 + d;
        assert(v / 10 == a && v % 10 == d) by (nonlinear_arith)
            requires
                v == a * 10 + d,
                d < 10,
        ;
        assert(digits_of(v, s.len()) =~= s);
    }
}

/// Reads a field of decimal digits; `None` where a byte is no digit or the
/// value does not fit in 16 bits.
pub fn parse_number(s: &[u8]) -> (r: Option<u16>)
    requires
        s@.len() <= 5,
    ensures
        r == number_of(s@),
{
    let mut v: u32 = 0;
    let mut i: usize = 0;
    while i < s.len()
        invariant
            i <= s@.len() <= 5,
            all_digits(s@.subrange(0, i as int)),
            v as nat == digits_value(s@.subrange(0, i as int)),
            v < pow10(i as nat),
            pow10(i as nat) <= 100000,
        decreases s@.len() - i,
    {
        let c = s[i];
        if c < 0x30 || c > 0x39 {
            assert(!all_digits(s@)) by {
                assert(!is_digit(s@[i as int]));
            }
            return None;
        }
        let ghost pre = s@.subrange(0, i as int);
        let ghost next = s@.subrange(0, i + 1);
        assert(next.drop_last() =~= pre);
        let d = (c - 0x30) as u32;
        assert(v * 10 + d < 10 * pow10(i as nat)) by (nonlinear_arith)
            requires
                v < pow10(i as nat),
                d < 10,
        ;
        assert(pow10((i + 1) as nat) == 10 * pow10(i as nat));
        assert(pow10((i + 1) as nat) <= 100000) by {
            assert(i + 1 <= 5);
            reveal_with_fuel(pow10, 6);
        }
        v = v * 10 + d;
        i = i + 1;
        assert(all_digits(next)) by {
            assert forall|j: int| 0 <= j < next.len() implies is_digit(#[trigger] next[j]) by {
                if j < i - 1 {
                    assert(next[j] == pre[j]);
                }
            }
        }
    }
    assert(s@.subrange(0, i as int) =~= s@);
    if v > 65535 {
        None
    } else {
        Some(v as u16)
    }
}

/// Writes `v` as its `w` lowest decimal digits at the end of `out`.
pub fn put_number(out: &mut Vec<u8>, v: u16, w: usize)
    requires
        w <= 5,
    ensures
        final(out)@ == old(out)@ + digits_of(v as nat, w as nat),
        final(out)@.len() == old(out)@.len() + w,
{
    proof {
        lemma_digits_of_len(v as nat, w as nat);
    }
    let mut buf: Vec<u8> = Vec::new();
    let mut rest: u16 = v;
    let mut k: usize = 0;
    assert(pow10(0) == 1);
    assert(v as nat / 1 == v as nat);
    assert(buf@.reverse() =~= Seq::<u8>::empty());
    assert(digits_of(v as nat, w as nat) =~= digits_of(v as nat, w as nat) + Seq::<u8>::empty());
    while k < w
        invariant
            k <= w <= 5,
            buf@.len() == k,
            rest as nat == v as nat / pow10(k as nat),
            digits_of(v as nat, w as nat) == digits_of(rest as nat, (w - k) as nat) + buf@.reverse(),
        decreases w - k,
    {
        let ghost b0 = buf@;
        let ghost r0 = rest as nat;
        let d = (rest % 10) as u8;
        buf.push(d + 0x30);
        rest = rest / 10;
        assert(digits_of(r0, (w - k) as nat) == digits_of(r0 / 10, (w - k - 1) as nat).push(
            (r0 % 10 + 0x30) as u8,
        ));
        assert(buf@.reverse() =~= seq![(r0 % 10 + 0x30) as u8] + b0.reverse());
        assert(digits_of(r0 / 10, (w - k - 1) as nat).push((r0 % 10 + 0x30) as u8) + b0.reverse()
            =~= digits_of(r0 / 10, (w - k - 1) as nat) + buf@.reverse());
        assert(r0 / 10 == v as nat / pow10((k + 1) as nat)) by {
            lemma_pow10_positive(k as nat);
            vstd::arithmetic::div_mod::lemma_div_denominator(v as int, pow10(k as nat) as int, 10);
            assert(pow10((k + 1) as nat) == 10 * pow10(k as nat));
            assert(pow10(k as nat) * 10 == 10 * pow10(k as nat)) by (nonlinear_arith);
        }
        k = k + 1;
    }
    assert(digits_of(rest as nat, 0) =~= Seq::<u8>::empty());
    assert(digits_of(v as nat, w as nat) =~= buf@.reverse());
    let mut j: usize = w;
    assert(buf@.reverse().subrange(0, 0) =~= Seq::<u8>::empty());
    assert(out@ =~= old(out)@ + buf@.reverse().subrange(0, 0));
    while j > 0
        invariant
            j <= w,
            buf@.len() == w,
            out@ == old(out)@ + buf@.reverse().subrange(0, (w - j) as int),
        decreases j,
    {
        j = j - 1;
        let ghost o = out@;
        out.push(buf[j]);
        assert(buf@.reverse()[(w - 1 - j) as int] == buf@[j as int]);
        assert(out@ =~= old(out)@ + buf@.reverse().subrange(0, (w - j) as int));
    }
    assert(buf@.reverse().subrange(0, w as int) =~= buf@.reverse());
}

/// Error that std reports for a malformed integer.
#[verifier::external_type_specification]
#[verifier::external_body]
pub struct ExParseIntError(std::num::ParseIntError);

pub open spec fn is_char_digit(c: char) -> bool {
    '0' <= c <= '9'
}

/// The number that a string of decimal digit characters writes.
pub open spec fn char_digits_value(s: Seq<char>) -> nat
    decreases s.len(),
{
    if s.len() == 0 {
        0
    } else {
        char_digits_value(s.drop_last()) * 10 + (s.last() as u32 - '0' as u32) as nat
    }
}

/// Every character of `d` is a decimal digit.
pub open spec fn all_char_digits(d: Seq<char>) -> bool {
    forall|i: int| 0 <= i < d.len() ==> is_char_digit(#[trigger] d[i])
}

/// What one or more decimal digits read as, where the value is at most 255.
pub open spec fn digits_u8_of(d: Seq<char>) -> Option<u8> {
    if d.len() > 0 && all_char_digits(d) && char_digits_value(d) <= 255 {
        Some(char_digits_value(d) as u8)
    } else {
        None
    }
}

/// What a text reads as a byte: an optional `+`, then one or more decimal
/// digits whose value is at most 255.
pub open spec fn u8_text_of(s: Seq<char>) -> Option<u8> {
    if s.len() > 0 && s[0] == '+' {
        digits_u8_of(s.drop_first())
    } else {
        digits_u8_of(s)
    }
}

/// A text made of spaces only, the empty text included.
pub open spec fn is_blank(s: Seq<char>) -> bool {
    forall|i: int| 0 <= i < s.len() ==> #[trigger] s[i] == ' '
}

/// Relies on `u8::from_str`, whose documentation accepts an optional `+`
/// followed by decimal digits, and reports overflow past 255 as an error.
#[verifier::external_body]
fn u8_from_text(s: &str) -> (r: Result<u8, std::num::ParseIntError>)
    ensures
        match u8_text_of(s@) {
            Some(v) => r == Ok::<u8, std::num::ParseIntError>(v),
            None => r is Err,
        },
{
    <u8 as std::str::FromStr>::from_str(s)
}

/// Reads a count written in decimal, or `default` where the text is blank.
pub fn u8_from_str_with_default_if_blank(input: &str, default: u8) -> (r: Result<
    u8,
    std::num::ParseIntError,
>)
    ensures
        is_blank(input@) ==> r == Ok::<u8, std::num::ParseIntError>(default),
        !is_blank(input@) ==> match u8_text_of(input@) {
            Some(v) => r == Ok::<u8, std::num::ParseIntError>(v),
            None => r is Err,
        },
{
    let n = input.unicode_len();
    let mut i: usize = 0;
    while i < n
        invariant
            n == input@.len(),
            i <= n,
            forall|j: int| 0 <= j < i ==> #[trigger] input@[j] == ' ',
        decreases n - i,
    {
        if input.get_char(i) != ' ' {
            return u8_from_text(input);
        }
        i = i + 1;
    }
    Ok(default)
}

pub proof fn lemma_digits_of_len(v: nat, w: nat)
    ensures
        digits_of(v, w).len() == w,
    decreases w,
{
    if w > 0 {
        lemma_digits_of_len(v / 10, (w - 1) as nat);
    }
}

pub proof fn lemma_pow10_positive(n: nat)
    ensures
        pow10(n) > 0,
    decreases n,
{
    if n > 0 {
        lemma_pow10_positive((n - 1) as nat);
    }
}

} // verus!
