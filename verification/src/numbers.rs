//! Decimal and hexadecimal numerals on the wire.
//!
//! Status codes, `Content-Length` values and chunk sizes travel as ASCII
//! numerals; these functions render and read them against exact
//! specifications.
use vstd::prelude::*;

verus! {

/// The shortest decimal numeral of `n`, most significant digit first.
pub open spec fn dec(n: nat) -> Seq<u8>
    decreases n,
{
    if n < 10 {
        seq![(48 + n) as u8]
    } else {
        dec(n / 10).push((48 + n % 10) as u8)
    }
}

/// One lowercase hexadecimal digit.
pub open spec fn hex_digit(d: nat) -> u8 {
    if d < 10 {
        (48 + d) as u8
    } else {
        (87 + d) as u8
    }
}

/// The shortest lowercase hexadecimal numeral of `n`.
pub open spec fn hex(n: nat) -> Seq<u8>
    decreases n,
{
    if n < 16 {
        seq![hex_digit(n)]
    } else {
        hex(n / 16).push(hex_digit(n % 16))
    }
}

/// Appends the decimal numeral of `n` to `out`.
pub fn push_dec(out: &mut Vec<u8>, n: u64)
    ensures
        final(out)@ == old(out)@ + dec(n as nat),
    decreases n,
{
    if n >= 10 {
        push_dec(out, n / 10);
    }
    out.push(48 + (n % 10) as u8);
    assert(final(out)@ =~= old(out)@ + dec(n as nat));
}

/// Appends the lowercase hexadecimal numeral of `n` to `out`.
pub fn push_hex(out: &mut Vec<u8>, n: u64)
    ensures
        final(out)@ == old(out)@ + hex(n as nat),
    decreases n,
{
    if n >= 16 {
        push_hex(out, n / 16);
    }
    let d = (n % 16) as u8;
    if d < 10 {
        out.push(48 + d);
    } else {
        out.push(87 + d);
    }
    assert(final(out)@ =~= old(out)@ + hex(n as nat));
}

/// True when `b` is an ASCII decimal digit.
pub open spec fn is_dec_digit(b: u8) -> bool {
    48 <= b <= 57
}

/// True when `s` is one or more decimal digits.
pub open spec fn all_dec_digits(s: Seq<u8>) -> bool {
    s.len() > 0 && forall|i: int| 0 <= i < s.len() ==> is_dec_digit(s[i])
}

/// The value of a string of decimal digits, most significant first.
pub open spec fn dec_val(s: Seq<u8>) -> nat
    decreases s.len(),
{
    if s.len() == 0 {
        0
    } else {
        dec_val(s.drop_last()) * 10 + (s.last() - 48) as nat
    }
}

/// The digits of a numeral after an optional leading `+` sign.
pub open spec fn after_sign(s: Seq<u8>) -> Seq<u8> {
    if s.len() > 0 && s[0] == 43 {
        s.drop_first()
    } else {
        s
    }
}

/// True when `s` is a decimal numeral (optional `+`, then digits) whose
/// value fits in a `u64`.
pub open spec fn dec_accepts(s: Seq<u8>) -> bool {
    all_dec_digits(after_sign(s)) && dec_val(after_sign(s)) <= u64::MAX
}

/// The value of a digit string never shrinks when digits are appended.
pub proof fn lemma_dec_val_prefix(s: Seq<u8>, i: int)
    requires
        0 <= i <= s.len(),
    ensures
        dec_val(s.subrange(0, i)) <= dec_val(s),
    decreases s.len() - i,
{
    if i == s.len() {
        assert(s.subrange(0, i) =~= s);
    } else {
        lemma_dec_val_prefix(s, i + 1);
        let p = s.subrange(0, i + 1);
        assert(p.drop_last() =~= s.subrange(0, i));
        assert(dec_val(p) == dec_val(s.subrange(0, i)) * 10 + (p.last() - 48) as nat);
        assert(dec_val(s.subrange(0, i)) <= dec_val(s.subrange(0, i)) * 10) by (nonlinear_arith);
    }
}

/// Reads a decimal numeral, as the standard numeric parsers do: an optional
/// leading `+` sign, then one or more digits; `None` on anything else or on
/// overflow.
pub fn parse_dec_u64(v: &Vec<u8>) -> (r: Option<u64>)
    ensures
        match r {
            Some(n) => dec_accepts(v@) && n == dec_val(after_sign(v@)),
            None => !dec_accepts(v@),
        },
{
    let start: usize = if v.len() > 0 && v[0] == 43 {
        1
    } else {
        0
    };
    let ghost s = after_sign(v@);
    proof {
        assert(s =~= v@.subrange(start as int, v@.len() as int));
    }
    if v.len() == start {
        return None;
    }
    let mut acc: u64 = 0;
    let mut i: usize = start;
    while i < v.len()
        invariant
            start <= i <= v@.len(),
            start < v@.len(),
            s == after_sign(v@),
            s == v@.subrange(start as int, v@.len() as int),
            acc == dec_val(v@.subrange(start as int, i as int)),
            forall|k: int| start <= k < i ==> is_dec_digit(v@[k]),
        decreases v@.len() - i,
    {
        let b = v[i];
        if b < 48 || b > 57 {
            assert(s[i - start] == v@[i as int]);
            assert(!is_dec_digit(s[i - start]));
            return None;
        }
        let d = (b - 48) as u64;
        if acc > (u64::MAX - d) / 10 {
            proof {
                let p = v@.subrange(start as int, i + 1 as int);
                assert(p.drop_last() =~= v@.subrange(start as int, i as int));
                assert(acc * 10 + d > u64::MAX) by (nonlinear_arith)
                    requires
                        acc > (u64::MAX - d) / 10,
                        d <= 9,
                ;
                assert(dec_val(p) > u64::MAX);
                assert(p =~= s.subrange(0, i + 1 - start));
                lemma_dec_val_prefix(s, i + 1 - start);
            }
            return None;
        }
        proof {
            assert(acc * 10 + d <= u64::MAX) by (nonlinear_arith)
                requires
                    acc <= (u64::MAX - d) / 10,
                    d <= 9,
            ;
            let p = v@.subrange(start as int, i + 1 as int);
            assert(p.drop_last() =~= v@.subrange(start as int, i as int));
        }
        acc = acc * 10 + d;
        i = i + 1;
    }
    assert(v@.subrange(start as int, i as int) =~= s);
    Some(acc)
}

/// True when `b` is an ASCII hexadecimal digit, either case.
pub open spec fn is_hex_digit(b: u8) -> bool {
    48 <= b <= 57 || 97 <= b <= 102 || 65 <= b <= 70
}

/// The value of one hexadecimal digit.
pub open spec fn hex_digit_val(b: u8) -> nat {
    if 48 <= b <= 57 {
        (b - 48) as nat
    } else if 97 <= b <= 102 {
        (b - 87) as nat
    } else {
        (b - 55) as nat
    }
}

/// True when `s` is one or more hexadecimal digits.
pub open spec fn all_hex_digits(s: Seq<u8>) -> bool {
    s.len() > 0 && forall|i: int| 0 <= i < s.len() ==> is_hex_digit(s[i])
}

/// The value of a string of hexadecimal digits, most significant first.
pub open spec fn hex_val(s: Seq<u8>) -> nat
    decreases s.len(),
{
    if s.len() == 0 {
        0
    } else {
        hex_val(s.drop_last()) * 16 + hex_digit_val(s.last())
    }
}

/// True when `s` is a hexadecimal numeral (optional `+`, then hex digits)
/// whose value fits in a `u64`.
pub open spec fn hex_accepts(s: Seq<u8>) -> bool {
    all_hex_digits(after_sign(s)) && hex_val(after_sign(s)) <= u64::MAX
}

proof fn lemma_hex_val_prefix(s: Seq<u8>, i: int)
    requires
        0 <= i <= s.len(),
    ensures
        hex_val(s.subrange(0, i)) <= hex_val(s),
    decreases s.len() - i,
{
    if i == s.len() {
        assert(s.subrange(0, i) =~= s);
    } else {
        lemma_hex_val_prefix(s, i + 1);
        let p = s.subrange(0, i + 1);
        assert(p.drop_last() =~= s.subrange(0, i));
        assert(hex_val(p) == hex_val(s.subrange(0, i)) * 16 + hex_digit_val(p.last()));
        assert(hex_val(s.subrange(0, i)) <= hex_val(s.subrange(0, i)) * 16) by (nonlinear_arith);
    }
}

/// Reads a hexadecimal numeral, as the standard radix-16 parser does: an
/// optional leading `+` sign, then one or more hex digits of either case;
/// `None` on anything else or on overflow.
pub fn parse_hex_u64(v: &Vec<u8>) -> (r: Option<u64>)
    ensures
        match r {
            Some(n) => hex_accepts(v@) && n == hex_val(after_sign(v@)),
            None => !hex_accepts(v@),
        },
{
    let start: usize = if v.len() > 0 && v[0] == 43 {
        1
    } else {
        0
    };
    let ghost s = after_sign(v@);
    proof {
        assert(s =~= v@.subrange(start as int, v@.len() as int));
    }
    if v.len() == start {
        return None;
    }
    let mut acc: u64 = 0;
    let mut i: usize = start;
    while i < v.len()
        invariant
            start <= i <= v@.len(),
            start < v@.len(),
            s == after_sign(v@),
            s == v@.subrange(start as int, v@.len() as int),
            acc == hex_val(v@.subrange(start as int, i as int)),
            forall|k: int| start <= k < i ==> is_hex_digit(v@[k]),
        decreases v@.len() - i,
    {
        let b = v[i];
        let d: u64 = if 48 <= b && b <= 57 {
            (b - 48) as u64
        } else if 97 <= b && b <= 102 {
            (b - 87) as u64
        } else if 65 <= b && b <= 70 {
            (b - 55) as u64
        } else {
            assert(s[i - start] == v@[i as int]);
            assert(!is_hex_digit(s[i - start]));
            return None;
        };
        assert(d == hex_digit_val(b) && d <= 15);
        if acc > (u64::MAX - d) / 16 {
            proof {
                let p = v@.subrange(start as int, i + 1 as int);
                assert(p.drop_last() =~= v@.subrange(start as int, i as int));
                assert(acc * 16 + d > u64::MAX) by (nonlinear_arith)
                    requires
                        acc > (u64::MAX - d) / 16,
                        d <= 15,
                ;
                assert(hex_val(p) > u64::MAX);
                assert(p =~= s.subrange(0, i + 1 - start));
                lemma_hex_val_prefix(s, i + 1 - start);
            }
            return None;
        }
        proof {
            assert(acc * 16 + d <= u64::MAX) by (nonlinear_arith)
                requires
                    acc <= (u64::MAX - d) / 16,
                    d <= 15,
            ;
            let p = v@.subrange(start as int, i + 1 as int);
            assert(p.drop_last() =~= v@.subrange(start as int, i as int));
        }
        acc = acc * 16 + d;
        i = i + 1;
    }
    assert(v@.subrange(start as int, i as int) =~= s);
    Some(acc)
}

} // verus!
