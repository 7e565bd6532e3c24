use vstd::prelude::*;

verus! {

/// The character of a digit value below 16 (lowercase for the hex digits).
pub open spec fn digit_char(d: nat) -> char {
    if d == 0 { '0' } else if d == 1 { '1' } else if d == 2 { '2' } else if d == 3 { '3' }
    else if d == 4 { '4' } else if d == 5 { '5' } else if d == 6 { '6' } else if d == 7 { '7' }
    else if d == 8 { '8' } else if d == 9 { '9' } else if d == 10 { 'a' } else if d == 11 { 'b' }
    else if d == 12 { 'c' } else if d == 13 { 'd' } else if d == 14 { 'e' } else { 'f' }
}

/// The value of a digit character (hex digits in either case); 16 for any other character.
pub open spec fn digit_value(c: char) -> nat {
    if c == '0' { 0 } else if c == '1' { 1 } else if c == '2' { 2 } else if c == '3' { 3 }
    else if c == '4' { 4 } else if c == '5' { 5 } else if c == '6' { 6 } else if c == '7' { 7 }
    else if c == '8' { 8 } else if c == '9' { 9 } else if c == 'a' || c == 'A' { 10 }
    else if c == 'b' || c == 'B' { 11 } else if c == 'c' || c == 'C' { 12 }
    else if c == 'd' || c == 'D' { 13 } else if c == 'e' || c == 'E' { 14 }
    else if c == 'f' || c == 'F' { 15 } else { 16 }
}

/// Every character of `s` is a digit in base `b`.
pub open spec fn all_digits(s: Seq<char>, b: nat) -> bool {
    forall|i: int| 0 <= i < s.len() ==> #[trigger] digit_value(s[i]) < b
}

/// The number that the digits `s` spell in base `b`, most significant first.
pub open spec fn digits_value(s: Seq<char>, b: nat) -> nat
    decreases s.len(),
{
    if s.len() == 0 {
        0
    } else {
        digits_value(s.drop_last(), b) * b + digit_value(s.last())
    }
}

/// `b` to the power `n`.
pub open spec fn power(b: nat, n: nat) -> nat
    decreases n,
{
    if n == 0 {
        1
    } else {
        b * power(b, (n - 1) as nat)
    }
}

/// The decimal digits of `v`, zero-padded to at least `w` digits.
pub open spec fn dec_text(v: nat, w: nat) -> Seq<char>
    decreases v + w,
{
    if v < 10 && w <= 1 {
        seq![digit_char(v)]
    } else {
        dec_text(v / 10, if w > 0 { (w - 1) as nat } else { 0 }).push(digit_char(v % 10))
    }
}

/// The lowest `w` hex digits of `v`, lowercase.
pub open spec fn hex_text(v: nat, w: nat) -> Seq<char>
    decreases w,
{
    if w == 0 {
        seq![]
    } else {
        hex_text(v / 16, (w - 1) as nat).push(digit_char(v % 16))
    }
}

/// The length of the run of decimal digits that starts `s`.
pub open spec fn digit_run(s: Seq<char>) -> nat
    decreases s.len(),
{
    if s.len() > 0 && digit_value(s[0]) < 10 {
        1 + digit_run(s.drop_first())
    } else {
        0
    }
}

/// A number of one to nine decimal digits at the start of `s`, and what follows it.
pub open spec fn number(s: Seq<char>) -> Option<(nat, Seq<char>)> {
    let k = digit_run(s);
    if 1 <= k <= 9 {
        Some((digits_value(s.take(k as int), 10), s.skip(k as int)))
    } else {
        None
    }
}

/// A digit value below 16 reads back as itself.
pub proof fn lemma_digit_roundtrip(d: nat)
    requires
        d < 16,
    ensures
        digit_value(digit_char(d)) == d,
{
}

/// Decimal text is made of digits, at least `w` and at least one of them, and reads
/// back as `v`.
pub proof fn lemma_dec_text(v: nat, w: nat)
    ensures
        all_digits(dec_text(v, w), 10),
        digits_value(dec_text(v, w), 10) == v,
        dec_text(v, w).len() >= w,
        dec_text(v, w).len() >= 1,
    decreases v + w,
{
    if v < 10 && w <= 1 {
        lemma_digit_roundtrip(v);
        assert(seq![digit_char(v)].drop_last() == Seq::<char>::empty());
        assert(digits_value(Seq::<char>::empty(), 10) == 0);
        assert(digits_value(dec_text(v, w), 10) == 0 * 10 + digit_value(digit_char(v)));
    } else {
        let w1: nat = if w > 0 { (w - 1) as nat } else { 0 };
        lemma_dec_text(v / 10, w1);
        lemma_digit_roundtrip(v % 10);
        let t = dec_text(v / 10, w1);
        assert(dec_text(v, w).drop_last() == t);
        assert(dec_text(v, w).last() == digit_char(v % 10));
        assert((v / 10) * 10 + v % 10 == v);
        assert(digits_value(dec_text(v, w), 10) == digits_value(t, 10) * 10 + v % 10);
        assert forall|i: int| 0 <= i < dec_text(v, w).len() implies #[trigger] digit_value(
            dec_text(v, w)[i],
        ) < 10 by {
            if i < t.len() {
                assert(dec_text(v, w)[i] == t[i]);
            }
        }
    }
}

/// Decimal text of a number below `10^n`, padded to no more than `n` digits, has at
/// most `n` digits.
pub proof fn lemma_dec_text_len(v: nat, w: nat, n: nat)
    requires
        v < power(10, n),
        w <= n,
        n >= 1,
    ensures
        dec_text(v, w).len() <= n,
    decreases v + w,
{
    if v < 10 && w <= 1 {
    } else {
        let w1: nat = if w > 0 { (w - 1) as nat } else { 0 };
        if n == 1 {
            assert(power(10, 1) == 10) by {
                reveal_with_fuel(power, 2);
            }
        } else {
            assert(power(10, n) == 10 * power(10, (n - 1) as nat));
            assert(v / 10 < power(10, (n - 1) as nat));
            lemma_dec_text_len(v / 10, w1, (n - 1) as nat);
        }
    }
}

/// Hex text has exactly `w` digits and reads back as `v` when `v` fits in them.
pub proof fn lemma_hex_text(v: nat, w: nat)
    requires
        v < power(16, w),
    ensures
        all_digits(hex_text(v, w), 16),
        digits_value(hex_text(v, w), 16) == v,
        hex_text(v, w).len() == w,
    decreases w,
{
    if w > 0 {
        assert(power(16, w) == 16 * power(16, (w - 1) as nat));
        assert(v / 16 < power(16, (w - 1) as nat));
        lemma_hex_text(v / 16, (w - 1) as nat);
        lemma_digit_roundtrip(v % 16);
        let t = hex_text(v / 16, (w - 1) as nat);
        assert(hex_text(v, w).drop_last() == t);
        assert forall|i: int| 0 <= i < hex_text(v, w).len() implies #[trigger] digit_value(
            hex_text(v, w)[i],
        ) < 16 by {
            if i < t.len() {
                assert(hex_text(v, w)[i] == t[i]);
            }
        }
    } else {
        assert(v == 0);
    }
}

/// Digits in base `b` spell a number below `b^len`.
pub proof fn lemma_digits_value_bound(s: Seq<char>, b: nat)
    requires
        all_digits(s, b),
    ensures
        digits_value(s, b) < power(b, s.len()),
    decreases s.len(),
{
    if s.len() > 0 {
        let p = s.drop_last();
        assert(all_digits(p, b)) by {
            assert forall|i: int| 0 <= i < p.len() implies #[trigger] digit_value(p[i]) < b by {
                assert(p[i] == s[i]);
            }
        }
        lemma_digits_value_bound(p, b);
        let x = digits_value(p, b);
        let d = digit_value(s.last());
        let m = power(b, p.len());
        assert(d < b);
        assert(x * b + d < m * b) by (nonlinear_arith)
            requires
                x < m,
                d < b,
        ;
        assert(power(b, s.len()) == b * m);
    }
}

/// A run of digits followed by a non-digit (or by nothing) is exactly the digit run.
pub proof fn lemma_digit_run_prefix(d: Seq<char>, rest: Seq<char>)
    requires
        all_digits(d, 10),
        rest.len() == 0 || digit_value(rest[0]) >= 10,
    ensures
        digit_run(d + rest) == d.len(),
    decreases d.len(),
{
    if d.len() == 0 {
        assert(d + rest == rest);
    } else {
        assert((d + rest)[0] == d[0]);
        assert((d + rest).drop_first() == d.drop_first() + rest);
        assert(all_digits(d.drop_first(), 10)) by {
            assert forall|i: int| 0 <= i < d.drop_first().len() implies #[trigger] digit_value(
                d.drop_first()[i],
            ) < 10 by {
                assert(d.drop_first()[i] == d[i + 1]);
            }
        }
        lemma_digit_run_prefix(d.drop_first(), rest);
    }
}

/// Decimal text followed by a non-digit reads back as a number, when it has at most
/// nine digits.
pub proof fn lemma_number_of_dec_text(v: nat, w: nat, rest: Seq<char>)
    requires
        dec_text(v, w).len() <= 9,
        rest.len() == 0 || digit_value(rest[0]) >= 10,
    ensures
        number(dec_text(v, w) + rest) == Some((v, rest)),
{
    let d = dec_text(v, w);
    lemma_dec_text(v, w);
    lemma_digit_run_prefix(d, rest);
    assert((d + rest).take(d.len() as int) == d);
    assert((d + rest).skip(d.len() as int) == rest);
}

/// The character of a digit value below 16.
pub fn digit_char_of(d: u64) -> (c: char)
    requires
        d < 16,
    ensures
        c == digit_char(d as nat),
{
    if d == 0 { '0' } else if d == 1 { '1' } else if d == 2 { '2' } else if d == 3 { '3' }
    else if d == 4 { '4' } else if d == 5 { '5' } else if d == 6 { '6' } else if d == 7 { '7' }
    else if d == 8 { '8' } else if d == 9 { '9' } else if d == 10 { 'a' } else if d == 11 { 'b' }
    else if d == 12 { 'c' } else if d == 13 { 'd' } else if d == 14 { 'e' } else { 'f' }
}

/// The value of a digit character; 16 for any other character.
pub fn digit_value_of(c: char) -> (r: u64)
    ensures
        r == digit_value(c),
{
    if c == '0' { 0 } else if c == '1' { 1 } else if c == '2' { 2 } else if c == '3' { 3 }
    else if c == '4' { 4 } else if c == '5' { 5 } else if c == '6' { 6 } else if c == '7' { 7 }
    else if c == '8' { 8 } else if c == '9' { 9 } else if c == 'a' || c == 'A' { 10 }
    else if c == 'b' || c == 'B' { 11 } else if c == 'c' || c == 'C' { 12 }
    else if c == 'd' || c == 'D' { 13 } else if c == 'e' || c == 'E' { 14 }
    else if c == 'f' || c == 'F' { 15 } else { 16 }
}

/// Relies on std's `String::push`: appends one character.
#[verifier::external_body]
pub(crate) fn push_char(s: &mut String, c: char)
    ensures
        final(s)@ == old(s)@.push(c),
{
    s.push(c);
}

/// Appends the decimal digits of `v`, zero-padded to at least `w` digits.
pub fn push_dec(out: &mut String, v: u64, w: usize)
    ensures
        final(out)@ == old(out)@ + dec_text(v as nat, w as nat),
    decreases v + w,
{
    if v < 10 && w <= 1 {
        push_char(out, digit_char_of(v));
        proof {
            assert(old(out)@.push(digit_char(v as nat)) == old(out)@ + seq![digit_char(v as nat)]);
        }
    } else {
        let w1: usize = if w > 0 { w - 1 } else { 0 };
        push_dec(out, v / 10, w1);
        push_char(out, digit_char_of(v % 10));
        proof {
            let t = dec_text((v / 10) as nat, w1 as nat);
            assert(old(out)@ + t.push(digit_char((v % 10) as nat)) == (old(out)@ + t).push(
                digit_char((v % 10) as nat),
            ));
        }
    }
}

/// Appends the lowest `w` hex digits of `v`.
pub fn push_hex(out: &mut String, v: u64, w: usize)
    ensures
        final(out)@ == old(out)@ + hex_text(v as nat, w as nat),
    decreases w,
{
    if w == 0 {
        proof {
            assert(old(out)@ + Seq::<char>::empty() == old(out)@);
        }
    } else {
        push_hex(out, v / 16, w - 1);
        push_char(out, digit_char_of(v % 16));
        proof {
            let t = hex_text((v / 16) as nat, (w - 1) as nat);
            assert(old(out)@ + t.push(digit_char((v % 16) as nat)) == (old(out)@ + t).push(
                digit_char((v % 16) as nat),
            ));
        }
    }
}

/// Reads the hex digits `s` (at most sixteen) as a number; `None` if one is no hex digit.
pub fn parse_hex(s: &str) -> (r: Option<u64>)
    requires
        s@.len() <= 16,
    ensures
        r == (if all_digits(s@, 16) {
            Some(digits_value(s@, 16) as u64)
        } else {
            None::<u64>
        }),
        r is Some ==> r.unwrap() as nat == digits_value(s@, 16),
{
    let n = s.unicode_len();
    let mut v: u64 = 0;
    let mut i: usize = 0;
    while i < n
        invariant
            n == s@.len(),
            n <= 16,
            i <= n,
            all_digits(s@.take(i as int), 16),
            v as nat == digits_value(s@.take(i as int), 16),
        decreases n - i,
    {
        let d = digit_value_of(s.get_char(i));
        if d >= 16 {
            proof {
                assert(digit_value(s@[i as int]) >= 16);
            }
            return None;
        }
        proof {
            let p = s@.take(i as int);
            let q = s@.take(i as int + 1);
            assert(q.drop_last() == p);
            assert(q.last() == s@[i as int]);
            lemma_digits_value_bound(p, 16);
            lemma_power_16_le(i as nat);
            assert(v * 16 + d < 0x1_0000_0000_0000_0000) by (nonlinear_arith)
                requires
                    v < power(16, i as nat),
                    power(16, i as nat) <= 0x1000_0000_0000_0000,
                    d < 16,
            ;
            assert forall|j: int| 0 <= j < q.len() implies #[trigger] digit_value(q[j]) < 16 by {
                if j < p.len() {
                    assert(q[j] == p[j]);
                }
            }
        }
        v = v * 16 + d;
        i += 1;
    }
    proof {
        assert(s@.take(n as int) == s@);
    }
    Some(v)
}

/// `16^i` is at most `16^15` for `i < 16`.
proof fn lemma_power_16_le(i: nat)
    requires
        i < 16,
    ensures
        power(16, i) <= 0x1000_0000_0000_0000,
    decreases i,
{
    reveal_with_fuel(power, 16);
}

/// Reads the number of one to nine decimal digits that starts at position `pos` of
/// `s`; returns it with the position after its last digit.
pub fn take_number(s: &str, pos: usize) -> (r: Option<(u64, usize)>)
    requires
        pos <= s@.len(),
    ensures
        match number(s@.skip(pos as int)) {
            Some((v, rest)) => r is Some && r.unwrap().0 as nat == v && r.unwrap().1 <= s@.len()
                && s@.skip(r.unwrap().1 as int) == rest,
            None => r is None,
        },
{
    let n = s.unicode_len();
    let mut j: usize = pos;
    let mut v: u64 = 0;
    while j < n && j - pos < 10 && digit_value_of(s.get_char(j)) < 10
        invariant
            n == s@.len(),
            pos <= j <= n,
            j - pos <= 10,
            all_digits(s@.subrange(pos as int, j as int), 10),
            v as nat == digits_value(s@.subrange(pos as int, j as int), 10),
            digit_run(s@.skip(pos as int)) == (j - pos) + digit_run(s@.skip(j as int)),
        decreases n - j,
    {
        proof {
            let p = s@.subrange(pos as int, j as int);
            let q = s@.subrange(pos as int, j as int + 1);
            assert(q.drop_last() == p);
            assert(q.last() == s@[j as int]);
            assert(s@.skip(j as int)[0] == s@[j as int]);
            assert(s@.skip(j as int).drop_first() == s@.skip(j as int + 1));
            lemma_digits_value_bound(p, 10);
            lemma_power_10_le(p.len());
            assert forall|k: int| 0 <= k < q.len() implies #[trigger] digit_value(q[k]) < 10 by {
                if k < p.len() {
                    assert(q[k] == p[k]);
                }
            }
        }
        let d = digit_value_of(s.get_char(j));
        proof {
            let p = s@.subrange(pos as int, j as int);
            assert(v * 10 + d < 100_000_000_000) by (nonlinear_arith)
                requires
                    v < power(10, p.len()),
                    power(10, p.len()) <= 10_000_000_000,
                    d < 10,
            ;
        }
        v = v * 10 + d;
        j += 1;
    }
    proof {
        if j < n && j - pos < 10 {
            assert(s@.skip(j as int)[0] == s@[j as int]);
        }
        if j == n {
            assert(s@.skip(j as int).len() == 0);
        }
    }
    if j - pos < 1 || j - pos > 9 {
        return None;
    }
    proof {
        assert(s@.skip(pos as int).take(j - pos) == s@.subrange(pos as int, j as int));
        assert(s@.skip(pos as int).skip(j - pos) == s@.skip(j as int));
    }
    Some((v, j))
}

/// `10^i` is at most `10^10` for `i <= 10`.
proof fn lemma_power_10_le(i: nat)
    requires
        i <= 10,
    ensures
        power(10, i) <= 10_000_000_000,
    decreases i,
{
    reveal_with_fuel(power, 11);
}

} // verus!
