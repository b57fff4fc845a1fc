//! Reading a quality-weighted header value.
//!
//! Header values such as `TE` or the `Accept-*` family list alternatives
//! separated by commas, each optionally carrying parameters separated by
//! semicolons; a `q=` parameter weights the alternative. Weights are held
//! in thousandths, so `q=1` is 1000 and `q=0.5` is 500.
use vstd::prelude::*;

use crate::bytes::{find, find_first, sub_vec, trim, trim_front, trim_front_vec, trim_vec};
use crate::numbers::{dec_val, is_dec_digit, lemma_dec_val_prefix};

verus! {

/// Ten to a small power.
pub open spec fn pow10(n: nat) -> nat
    decreases n,
{
    if n == 0 {
        1
    } else {
        10 * pow10((n - 1) as nat)
    }
}

/// True when `s` is a run of decimal digits, possibly empty.
pub open spec fn digits_or_empty(s: Seq<u8>) -> bool {
    forall|i: int| 0 <= i < s.len() ==> is_dec_digit(s[i])
}

/// True when `s` reads as a plain decimal number: an optional sign, then
/// digits with at most one point and at least one digit.
pub open spec fn q_parses(s: Seq<u8>) -> bool {
    let t = q_body(s);
    match find(t, 46) {
        None => t.len() > 0 && digits_or_empty(t),
        Some(i) => digits_or_empty(t.take(i)) && digits_or_empty(t.skip(i + 1)) && t.len() > 1,
    }
}

/// The digits of a decimal number after its optional sign.
pub open spec fn q_body(s: Seq<u8>) -> Seq<u8> {
    if s.len() > 0 && (s[0] == 43 || s[0] == 45) {
        s.drop_first()
    } else {
        s
    }
}

/// True when the number carries a minus sign.
pub open spec fn q_negative(s: Seq<u8>) -> bool {
    s.len() > 0 && s[0] == 45
}

/// The first three fraction digits as thousandths, shorter runs padded
/// with zeros.
pub open spec fn frac3(f: Seq<u8>) -> nat {
    if f.len() >= 3 {
        dec_val(f.take(3))
    } else {
        dec_val(f) * pow10((3 - f.len()) as nat)
    }
}

/// The value of a decimal number in thousandths, clamped into a `u32`;
/// a negative number counts as zero.
pub open spec fn q_value(s: Seq<u8>) -> u32 {
    if q_negative(s) {
        0
    } else {
        let t = q_body(s);
        let raw: nat = match find(t, 46) {
            None => dec_val(t) * 1000,
            Some(i) => dec_val(t.take(i)) * 1000 + frac3(t.skip(i + 1)),
        };
        if raw > u32::MAX {
            u32::MAX
        } else {
            raw as u32
        }
    }
}

/// The weight of one parameter, when it has the shape `q=<number>`.
pub open spec fn spec_q_of_param(p: Seq<u8>) -> Option<u32> {
    let t = trim_front(p);
    if t.len() >= 2 && t[0] == 113 && t[1] == 61 && q_parses(trim(t.skip(2))) {
        Some(q_value(trim(t.skip(2))))
    } else {
        None
    }
}

/// The weight of an alternative, read from its parameter list: the first
/// parameter of the shape `q=<number>` wins, and without one the weight
/// is one (a thousand thousandths).
pub open spec fn spec_q_scan(params: Seq<u8>) -> u32
    decreases params.len(),
{
    match find(params, 59) {
        None => match spec_q_of_param(params) {
            Some(v) => v,
            None => 1000,
        },
        Some(i) => if 0 <= i < params.len() {
            match spec_q_of_param(params.take(i)) {
                Some(v) => v,
                None => spec_q_scan(params.skip(i + 1)),
            }
        } else {
            1000
        },
    }
}

/// One alternative: the token before the first semicolon, trimmed, and
/// its weight.
pub open spec fn spec_entry(elem: Seq<u8>) -> (Seq<u8>, u32) {
    match find(elem, 59) {
        None => (trim(elem), 1000),
        Some(i) => (trim(elem.take(i)), spec_q_scan(elem.skip(i + 1))),
    }
}

/// The alternatives of a quality-weighted header value, in their written
/// order, each with its weight in thousandths.
pub open spec fn spec_parse_header_value(s: Seq<u8>) -> Seq<(Seq<u8>, u32)>
    decreases s.len(),
{
    match find(s, 44) {
        None => seq![spec_entry(s)],
        Some(i) => if 0 <= i < s.len() {
            seq![spec_entry(s.take(i))] + spec_parse_header_value(s.skip(i + 1))
        } else {
            seq![spec_entry(s)]
        },
    }
}

/// The view of a parsed entry list.
pub open spec fn entries_view(r: Seq<(Vec<u8>, u32)>) -> Seq<(Seq<u8>, u32)> {
    r.map_values(|e: (Vec<u8>, u32)| (e.0@, e.1))
}

/// The digit at position `i` of a digit run, zero past the end.
pub open spec fn fdigit(f: Seq<u8>, i: int) -> nat {
    if 0 <= i < f.len() {
        (f[i] - 48) as nat
    } else {
        0
    }
}

/// The value of the leading fraction digits, written out.
proof fn lemma_frac3_val(f: Seq<u8>)
    requires
        digits_or_empty(f),
    ensures
        frac3(f) == fdigit(f, 0) * 100 + fdigit(f, 1) * 10 + fdigit(f, 2),
{
    reveal_with_fuel(dec_val, 5);
    reveal_with_fuel(pow10, 5);
    if f.len() >= 3 {
        let t3 = f.take(3);
        assert(t3.drop_last() =~= f.take(2));
        assert(f.take(2).drop_last() =~= f.take(1));
        assert(f.take(1).drop_last() =~= f.take(0));
        assert(f.take(0) =~= Seq::<u8>::empty());
        assert(dec_val(f.take(1)) == fdigit(f, 0));
        assert(dec_val(f.take(2)) == fdigit(f, 0) * 10 + fdigit(f, 1));
        assert(frac3(f) == (fdigit(f, 0) * 10 + fdigit(f, 1)) * 10 + fdigit(f, 2));
        assert((fdigit(f, 0) * 10 + fdigit(f, 1)) * 10 == fdigit(f, 0) * 100 + fdigit(f, 1) * 10)
            by (nonlinear_arith);
    } else if f.len() == 2 {
        assert(f.drop_last() =~= f.take(1));
        assert(f.take(1).drop_last() =~= f.take(0));
        assert(f.take(0) =~= Seq::<u8>::empty());
        assert(dec_val(f.take(1)) == fdigit(f, 0));
        assert(dec_val(f) == fdigit(f, 0) * 10 + fdigit(f, 1));
        assert(frac3(f) == (fdigit(f, 0) * 10 + fdigit(f, 1)) * 10);
        assert((fdigit(f, 0) * 10 + fdigit(f, 1)) * 10 == fdigit(f, 0) * 100 + fdigit(f, 1) * 10)
            by (nonlinear_arith);
    } else if f.len() == 1 {
        assert(f.drop_last() =~= Seq::<u8>::empty());
        assert(dec_val(f) == fdigit(f, 0));
        assert(frac3(f) == fdigit(f, 0) * 100);
    } else {
        assert(f =~= Seq::<u8>::empty());
        assert(frac3(f) == 0);
    }
}

/// Reads a decimal number into thousandths; `None` exactly when the
/// bytes do not read as a number.
#[verifier::loop_isolation(false)]
#[verifier::rlimit(60)]
fn parse_q(s: &Vec<u8>) -> (r: Option<u32>)
    ensures
        r is Some <==> q_parses(s@),
        r matches Some(v) ==> v == q_value(s@),
{
    let mut start: usize = 0;
    let mut negative = false;
    if s.len() > 0 && (s[0] == 43 || s[0] == 45) {
        start = 1;
        negative = s[0] == 45;
    }
    let body = sub_vec(s, start, s.len());
    proof {
        assert(body@ =~= q_body(s@));
        assert(negative == q_negative(s@));
    }
    let dot = find_first(&body, 46);
    let (int_part, frac_part) = match dot {
        None => {
            if body.len() == 0 {
                return None;
            }
            (sub_vec(&body, 0, body.len()), Vec::new())
        },
        Some(i) => {
            if body.len() <= 1 {
                return None;
            }
            (sub_vec(&body, 0, i), sub_vec(&body, i + 1, body.len()))
        },
    };
    proof {
        match find(body@, 46) {
            None => {
                assert(int_part@ =~= body@);
                assert(frac_part@ =~= Seq::<u8>::empty());
            },
            Some(i) => {
                assert(int_part@ =~= body@.take(i));
                assert(frac_part@ =~= body@.skip(i + 1));
            },
        }
    }
    // Both runs must be digits.
    let mut k: usize = 0;
    while k < int_part.len()
        invariant
            k <= int_part@.len(),
            forall|j: int| 0 <= j < k ==> is_dec_digit(int_part@[j]),
        decreases int_part@.len() - k,
    {
        let b = int_part[k];
        if b < 48 || b > 57 {
            assert(!is_dec_digit(int_part@[k as int]));
            return None;
        }
        k = k + 1;
    }
    let mut k2: usize = 0;
    while k2 < frac_part.len()
        invariant
            k2 <= frac_part@.len(),
            forall|j: int| 0 <= j < k2 ==> is_dec_digit(frac_part@[j]),
        decreases frac_part@.len() - k2,
    {
        let b = frac_part[k2];
        if b < 48 || b > 57 {
            assert(!is_dec_digit(frac_part@[k2 as int]));
            return None;
        }
        k2 = k2 + 1;
    }
    assert(q_parses(s@));
    if negative {
        return Some(0);
    }
    // The integer part, clamped just above the representable weights.
    let mut acc: u64 = 0;
    let mut i: usize = 0;
    let cap: u64 = 4294967296;
    while i < int_part.len()
        invariant
            i <= int_part@.len(),
            forall|j: int| 0 <= j < int_part@.len() ==> is_dec_digit(int_part@[j]),
            acc <= cap,
            cap == 4294967296,
            acc < cap ==> acc == dec_val(int_part@.subrange(0, i as int)),
            acc == cap ==> dec_val(int_part@.subrange(0, i as int)) > u32::MAX,
        decreases int_part@.len() - i,
    {
        let d = (int_part[i] - 48) as u64;
        proof {
            let p = int_part@.subrange(0, i + 1 as int);
            assert(p.drop_last() =~= int_part@.subrange(0, i as int));
        }
        if acc >= cap || acc * 10 + d >= cap {
            proof {
                if acc < cap {
                    assert(dec_val(int_part@.subrange(0, i + 1 as int)) >= cap > u32::MAX);
                }
            }
            acc = cap;
        } else {
            acc = acc * 10 + d;
        }
        i = i + 1;
    }
    assert(int_part@.subrange(0, int_part@.len() as int) =~= int_part@);
    // The first three fraction digits, zero padded.
    let f0: u64 = if frac_part.len() >= 1 {
        (frac_part[0] - 48) as u64
    } else {
        0
    };
    let f1: u64 = if frac_part.len() >= 2 {
        (frac_part[1] - 48) as u64
    } else {
        0
    };
    let f2: u64 = if frac_part.len() >= 3 {
        (frac_part[2] - 48) as u64
    } else {
        0
    };
    let fr: u64 = f0 * 100 + f1 * 10 + f2;
    proof {
        lemma_frac3_val(frac_part@);
        assert(frac3(frac_part@) == fr);
    }
    let total: u64 = if acc >= cap {
        u32::MAX as u64
    } else if acc * 1000 + fr > u32::MAX as u64 {
        u32::MAX as u64
    } else {
        acc * 1000 + fr
    };
    proof {
        if acc >= cap {
            assert(dec_val(int_part@) > u32::MAX);
            assert(dec_val(int_part@) * 1000 + frac3(frac_part@) > u32::MAX) by (nonlinear_arith)
                requires
                    dec_val(int_part@) > u32::MAX,
            ;
        }
        match find(q_body(s@), 46) {
            None => {
                assert(int_part@ == q_body(s@));
                assert(frac3(frac_part@) == 0);
            },
            Some(i) => {
                assert(int_part@ == q_body(s@).take(i));
                assert(frac_part@ == q_body(s@).skip(i + 1));
            },
        }
    }
    Some(total as u32)
}

/// The weight of one parameter, when it has the shape `q=<number>`.
fn q_of_param(p: &Vec<u8>) -> (r: Option<u32>)
    ensures
        r == spec_q_of_param(p@),
{
    let t = trim_front_vec(p);
    if t.len() >= 2 && {
        let a = t[0];
        let b = t[1];
        a == 113 && b == 61
    } {
        let rest = sub_vec(&t, 2, t.len());
        proof {
            assert(rest@ =~= trim_front(p@).skip(2));
        }
        let val = trim_vec(&rest);
        parse_q(&val)
    } else {
        None
    }
}

/// The weight of an alternative, read from its parameter list.
fn q_scan(params: &Vec<u8>) -> (r: u32)
    ensures
        r == spec_q_scan(params@),
    decreases params@.len(),
{
    match find_first(params, 59) {
        None => {
            match q_of_param(params) {
                Some(v) => v,
                None => 1000,
            }
        },
        Some(i) => {
            let head = sub_vec(params, 0, i);
            proof {
                assert(head@ =~= params@.take(i as int));
            }
            match q_of_param(&head) {
                Some(v) => v,
                None => {
                    let plen = params.len();
                    let rest = sub_vec(params, i + 1, plen);
                    proof {
                        assert(rest@ =~= params@.skip(i + 1));
                    }
                    q_scan(&rest)
                },
            }
        },
    }
}

/// One alternative of a header value.
fn parse_entry(elem: &Vec<u8>) -> (r: (Vec<u8>, u32))
    ensures
        (r.0@, r.1) == spec_entry(elem@),
{
    match find_first(elem, 59) {
        None => (trim_vec(elem), 1000),
        Some(i) => {
            let elen = elem.len();
            let head = sub_vec(elem, 0, i);
            let rest = sub_vec(elem, i + 1, elen);
            proof {
                assert(head@ =~= elem@.take(i as int));
                assert(rest@ =~= elem@.skip(i + 1));
            }
            (trim_vec(&head), q_scan(&rest))
        },
    }
}

/// Reads a quality-weighted header value, as sent in `TE` or `Accept-*`
/// headers: alternatives separated by commas, each token trimmed and
/// paired with its weight in thousandths (1000 when no `q=` parameter
/// names one).
///
/// For example, `text/plain, image/png; q=1.5` reads as the token
/// `text/plain` with weight 1000 and `image/png` with weight 1500.
pub fn parse_header_value(input: &Vec<u8>) -> (r: Vec<(Vec<u8>, u32)>)
    ensures
        entries_view(r@) == spec_parse_header_value(input@),
    decreases input@.len(),
{
    match find_first(input, 44) {
        None => {
            let mut out: Vec<(Vec<u8>, u32)> = Vec::new();
            out.push(parse_entry(input));
            assert(entries_view(out@) =~= spec_parse_header_value(input@));
            out
        },
        Some(i) => {
            let ilen = input.len();
            let head = sub_vec(input, 0, i);
            let rest = sub_vec(input, i + 1, ilen);
            proof {
                assert(head@ =~= input@.take(i as int));
                assert(rest@ =~= input@.skip(i + 1));
            }
            let entry = parse_entry(&head);
            let mut out: Vec<(Vec<u8>, u32)> = Vec::new();
            out.push(entry);
            let mut tail = parse_header_value(&rest);
            let ghost tail0 = tail@;
            out.append(&mut tail);
            assert(out@ =~= seq![(out@[0].0, out@[0].1)].map_values(
                |e: (Vec<u8>, u32)| e,
            ) + tail0) by {
                assert(out@.len() == 1 + tail0.len());
            }
            assert(entries_view(out@) =~= spec_parse_header_value(input@));
            out
        },
    }
}

} // verus!
