//! Identifier codec: opaque external identifier strings of the shape
//! `usr_xxxxxxxx-xxxx-xxxx-xxxx-xxxxxxxxxxxx` (lowercase hexadecimal) are
//! converted to and from the 128-bit unsigned integer domain.

use vstd::prelude::*;

use crate::errors::Error;

verus! {

/// `b` is an ASCII lowercase hexadecimal digit.
pub open spec fn is_hex_digit(b: u8) -> bool {
    (48 <= b <= 57) || (97 <= b <= 102)
}

/// Numeric value of a hexadecimal digit byte.
pub open spec fn hex_val(b: u8) -> int {
    if 48 <= b <= 57 {
        b - 48
    } else {
        b - 87
    }
}

/// The lowercase hexadecimal digit byte for a value below 16.
pub open spec fn hex_char(v: int) -> u8 {
    if v < 10 {
        (48 + v) as u8
    } else {
        (87 + v) as u8
    }
}

pub open spec fn all_hex(d: Seq<u8>) -> bool {
    forall|i: int| 0 <= i < d.len() ==> is_hex_digit(d[i])
}

/// The integer denoted by a big-endian string of hexadecimal digits.
pub open spec fn hex_to_int(d: Seq<u8>) -> int
    decreases d.len(),
{
    if d.len() == 0 {
        0
    } else {
        hex_to_int(d.drop_last()) * 16 + hex_val(d.last())
    }
}

pub open spec fn pow16(n: nat) -> int
    decreases n,
{
    if n == 0 {
        1
    } else {
        16 * pow16((n - 1) as nat)
    }
}

/// The 32 hexadecimal digit bytes of an identifier string, punctuation
/// stripped: groups of 8, 4, 4, 4 and 12 digits.
pub open spec fn id_digits(s: Seq<u8>) -> Seq<u8> {
    s.subrange(4, 12) + s.subrange(13, 17) + s.subrange(18, 22) + s.subrange(23, 27)
        + s.subrange(28, 40)
}

/// A valid external identifier string: the fixed prefix `usr_` (bytes
/// 117, 115, 114, 95), four hyphens (byte 45) at the fixed positions, and
/// lowercase hexadecimal digits everywhere else, 40 bytes in all.
pub open spec fn valid_id_string(s: Seq<u8>) -> bool {
    &&& s.len() == 40
    &&& s[0] == 117
    &&& s[1] == 115
    &&& s[2] == 114
    &&& s[3] == 95
    &&& s[12] == 45
    &&& s[17] == 45
    &&& s[22] == 45
    &&& s[27] == 45
    &&& all_hex(id_digits(s))
}

/// The 128-bit value an identifier string denotes.
pub open spec fn id_of_string(s: Seq<u8>) -> int {
    hex_to_int(id_digits(s))
}

/// The unique valid identifier string denoting a value.
pub open spec fn str_of_id(x: u128) -> Seq<u8> {
    choose|s: Seq<u8>| valid_id_string(s) && id_of_string(s) == x as int
}

/// Every valid string is the canonical string of its value.
pub proof fn lemma_str_of_id(s: Seq<u8>)
    requires
        valid_id_string(s),
    ensures
        0 <= id_of_string(s) <= u128::MAX,
        str_of_id(id_of_string(s) as u128) == s,
{
    lemma_hex_to_int_bound(id_digits(s));
    lemma_pow16_values();
    let x = id_of_string(s) as u128;
    assert(valid_id_string(s) && id_of_string(s) == x as int);
    let c = choose|t: Seq<u8>| valid_id_string(t) && id_of_string(t) == x as int;
    lemma_codec_roundtrip(s, c);
}

/// The two powers of 16 that the codec's loops start from.
proof fn lemma_pow16_values()
    ensures
        pow16(31) == 0x1000_0000_0000_0000_0000_0000_0000_0000int,
        pow16(32) == 0x1_0000_0000_0000_0000_0000_0000_0000_0000int,
{
    reveal_with_fuel(pow16, 33);
}

proof fn lemma_pow16_pos(n: nat)
    ensures
        pow16(n) >= 1,
    decreases n,
{
    if n > 0 {
        lemma_pow16_pos((n - 1) as nat);
    }
}

/// The value of a digit string is below 16^len.
proof fn lemma_hex_to_int_bound(d: Seq<u8>)
    requires
        all_hex(d),
    ensures
        0 <= hex_to_int(d) < pow16(d.len()),
    decreases d.len(),
{
    if d.len() > 0 {
        assert(all_hex(d.drop_last()));
        lemma_hex_to_int_bound(d.drop_last());
        lemma_pow16_pos((d.len() - 1) as nat);
        assert(pow16(d.len()) == 16 * pow16((d.len() - 1) as nat));
    }
}

/// A digit string of a given length is determined by its value.
proof fn lemma_hex_to_int_injective(d1: Seq<u8>, d2: Seq<u8>)
    requires
        all_hex(d1),
        all_hex(d2),
        d1.len() == d2.len(),
        hex_to_int(d1) == hex_to_int(d2),
    ensures
        d1 == d2,
    decreases d1.len(),
{
    if d1.len() == 0 {
        assert(d1 =~= d2);
    } else {
        let h = hex_to_int(d1);
        let a1 = hex_to_int(d1.drop_last());
        let a2 = hex_to_int(d2.drop_last());
        assert(all_hex(d1.drop_last()));
        assert(all_hex(d2.drop_last()));
        lemma_hex_to_int_bound(d1.drop_last());
        lemma_hex_to_int_bound(d2.drop_last());
        vstd::arithmetic::div_mod::lemma_fundamental_div_mod_converse_mod(
            h,
            16,
            a1,
            hex_val(d1.last()),
        );
        vstd::arithmetic::div_mod::lemma_fundamental_div_mod_converse_mod(
            h,
            16,
            a2,
            hex_val(d2.last()),
        );
        vstd::arithmetic::div_mod::lemma_fundamental_div_mod_converse_div(
            h,
            16,
            a1,
            hex_val(d1.last()),
        );
        vstd::arithmetic::div_mod::lemma_fundamental_div_mod_converse_div(
            h,
            16,
            a2,
            hex_val(d2.last()),
        );
        assert(hex_val(d1.last()) == hex_val(d2.last()));
        assert(d1.last() == d2.last());
        lemma_hex_to_int_injective(d1.drop_last(), d2.drop_last());
        assert forall|i: int| 0 <= i < d1.len() implies d1[i] == d2[i] by {
            if i < d1.len() - 1 {
                assert(d1[i] == d1.drop_last()[i]);
                assert(d2[i] == d2.drop_last()[i]);
            } else {
                assert(d1[i] == d1.last() && d2[i] == d2.last());
            }
        }
        assert(d1 =~= d2);
    }
}

/// Law: the identifier codec round-trips.  `encode` maps a valid external
/// identifier string to the value `id_of_string(s)`, and `decode` maps a
/// value back to a valid string denoting it; this lemma states that the
/// valid string denoting a value is unique, so decoding the encoded value
/// of a valid string yields exactly that string.
pub proof fn lemma_codec_roundtrip(s: Seq<u8>, t: Seq<u8>)
    requires
        valid_id_string(s),
        valid_id_string(t),
        id_of_string(t) == id_of_string(s),
    ensures
        t == s,
{
    lemma_hex_to_int_injective(id_digits(s), id_digits(t));
    assert forall|i: int| 0 <= i < 40 implies s[i] == t[i] by {
        let ds = id_digits(s);
        let dt = id_digits(t);
        if 4 <= i < 12 {
            assert(ds[i - 4] == s[i]);
            assert(dt[i - 4] == t[i]);
        } else if 13 <= i < 17 {
            assert(ds[8 + (i - 13)] == s[i]);
            assert(dt[8 + (i - 13)] == t[i]);
        } else if 18 <= i < 22 {
            assert(ds[12 + (i - 18)] == s[i]);
            assert(dt[12 + (i - 18)] == t[i]);
        } else if 23 <= i < 27 {
            assert(ds[16 + (i - 23)] == s[i]);
            assert(dt[16 + (i - 23)] == t[i]);
        } else if 28 <= i < 40 {
            assert(ds[20 + (i - 28)] == s[i]);
            assert(dt[20 + (i - 28)] == t[i]);
        }
    }
    assert(s =~= t);
}

fn hex_digit_check(b: u8) -> (r: bool)
    ensures
        r == is_hex_digit(b),
{
    (48 <= b && b <= 57) || (97 <= b && b <= 102)
}

fn hex_digit_value(b: u8) -> (v: u8)
    requires
        is_hex_digit(b),
    ensures
        v as int == hex_val(b),
        v < 16,
{
    if b <= 57 {
        b - 48
    } else {
        b - 87
    }
}

fn hex_digit_char(v: u8) -> (b: u8)
    requires
        v < 16,
    ensures
        b == hex_char(v as int),
        is_hex_digit(b),
        hex_val(b) == v as int,
{
    if v < 10 {
        48 + v
    } else {
        87 + v
    }
}

fn push_group(s: &[u8], digits: Vec<u8>, start: usize, end: usize) -> (r: Vec<u8>)
    requires
        start <= end <= s@.len(),
    ensures
        r@ == digits@ + s@.subrange(start as int, end as int),
{
    let mut acc = digits;
    let ghost orig = acc@;
    let mut j = start;
    while j < end
        invariant
            start <= j <= end <= s@.len(),
            acc@ == orig + s@.subrange(start as int, j as int),
        decreases end - j,
    {
        acc.push(s[j]);
        proof {
            assert(s@.subrange(start as int, j + 1) =~= s@.subrange(start as int, j as int).push(
                s@[j as int],
            ));
            assert(orig + s@.subrange(start as int, j + 1) =~= (orig + s@.subrange(
                start as int,
                j as int,
            )).push(s@[j as int]));
        }
        j = j + 1;
    }
    proof {
        assert(acc@ =~= orig + s@.subrange(start as int, end as int));
    }
    acc
}

/// Convert an external identifier string (as bytes) to its 128-bit value.
///
/// Returns `FormatError` exactly when the bytes are not a valid identifier
/// string: wrong length, wrong prefix or punctuation, or a character that
/// is not a lowercase hexadecimal digit.
pub fn encode(s: &[u8]) -> (r: Result<u128, Error>)
    ensures
        match r {
            Ok(x) => valid_id_string(s@) && x as int == id_of_string(s@),
            Err(e) => e == Error::FormatError && !valid_id_string(s@),
        },
{
    if s.len() != 40 {
        return Err(Error::FormatError);
    }
    if !(s[0] == 117 && s[1] == 115 && s[2] == 114 && s[3] == 95) {
        return Err(Error::FormatError);
    }
    if !(s[12] == 45 && s[17] == 45 && s[22] == 45 && s[27] == 45) {
        return Err(Error::FormatError);
    }
    let digits: Vec<u8> = Vec::new();
    let digits = push_group(s, digits, 4, 12);
    let digits = push_group(s, digits, 13, 17);
    let digits = push_group(s, digits, 18, 22);
    let digits = push_group(s, digits, 23, 27);
    let digits = push_group(s, digits, 28, 40);
    proof {
        assert(digits@ =~= id_digits(s@));
    }
    let mut i: usize = 0;
    while i < 32
        invariant
            i <= 32,
            digits@ == id_digits(s@),
            digits@.len() == 32,
            forall|k: int| 0 <= k < i ==> is_hex_digit(digits@[k]),
        decreases 32 - i,
    {
        if !hex_digit_check(digits[i]) {
            assert(!all_hex(id_digits(s@)));
            return Err(Error::FormatError);
        }
        i = i + 1;
    }
    assert(all_hex(digits@));
    let mut v: u128 = 0;
    let mut i: usize = 0;
    proof {
        lemma_pow16_values();
    }
    while i < 32
        invariant
            i <= 32,
            digits@ == id_digits(s@),
            digits@.len() == 32,
            all_hex(digits@),
            v as int == hex_to_int(digits@.subrange(0, i as int)),
            (v as int) < pow16(i as nat),
            pow16(32) == 0x1_0000_0000_0000_0000_0000_0000_0000_0000int,
        decreases 32 - i,
    {
        let d = hex_digit_value(digits[i]);
        proof {
            let pre = digits@.subrange(0, i as int);
            let post = digits@.subrange(0, i + 1);
            assert(post.drop_last() =~= pre);
            assert(post.last() == digits@[i as int]);
            lemma_pow16_monotone(i as nat, 31);
            lemma_pow16_pos(i as nat);
            assert(pow16((i + 1) as nat) == 16 * pow16(i as nat));
            assert(pow16(32) == 16 * pow16(31));
        }
        v = v * 16 + (d as u128);
        i = i + 1;
    }
    proof {
        assert(digits@.subrange(0, 32) =~= digits@);
    }
    Ok(v)
}

/// 16^a <= 16^b when a <= b.
proof fn lemma_pow16_monotone(a: nat, b: nat)
    requires
        a <= b,
    ensures
        pow16(a) <= pow16(b),
    decreases b,
{
    if a < b {
        lemma_pow16_monotone(a, (b - 1) as nat);
        lemma_pow16_pos((b - 1) as nat);
    }
}

/// Convert a 128-bit value to the external identifier string denoting it.
/// Total: every value has a valid string form.
pub fn decode(x: u128) -> (r: Vec<u8>)
    ensures
        valid_id_string(r@),
        id_of_string(r@) == x as int,
        r@ == str_of_id(x),
{
    let mut digits: Vec<u8> = Vec::new();
    let mut cur: u128 = x;
    // 16^31
    let mut p: u128 = 0x1000_0000_0000_0000_0000_0000_0000_0000;
    let mut i: usize = 0;
    proof {
        lemma_pow16_values();
    }
    while i < 32
        invariant
            i <= 32,
            digits@.len() == i,
            all_hex(digits@),
            i < 32 ==> p as int == pow16((31 - i) as nat),
            hex_to_int(digits@) * pow16((32 - i) as nat) + cur == x,
            (cur as int) < pow16((32 - i) as nat),
        decreases 32 - i,
    {
        proof {
            assert(pow16((32 - i) as nat) == 16 * pow16((31 - i) as nat));
        }
        let d: u8 = (cur / p) as u8;
        proof {
            lemma_pow16_pos((31 - i) as nat);
            assert((cur as int / p as int) < 16 && cur as int / p as int >= 0) by (nonlinear_arith)
                requires
                    p as int >= 1,
                    0 <= cur as int,
                    (cur as int) < 16 * (p as int),
            ;
            assert(cur as int / p as int == (cur / p) as int);
        }
        let c = hex_digit_char(d);
        let ghost prev = digits@;
        digits.push(c);
        let old_cur = cur;
        cur = cur % p;
        proof {
            let h = hex_to_int(prev);
            let pp = p as int;
            let w = pow16((32 - i) as nat);
            let w_next = pow16((31 - i) as nat);
            assert(digits@.drop_last() =~= prev);
            assert(digits@.last() == c);
            assert(hex_to_int(digits@) == h * 16 + d);
            vstd::arithmetic::div_mod::lemma_fundamental_div_mod(old_cur as int, pp);
            assert(d == old_cur as int / pp);
            assert(d * pp + cur == old_cur);
            assert(hex_to_int(digits@) * w_next + cur == h * w + old_cur) by (nonlinear_arith)
                requires
                    w == 16 * w_next,
                    hex_to_int(digits@) == h * 16 + d,
                    d * w_next + cur == old_cur,
                    w_next == pp,
            ;
            assert((cur as int) < pp) by {
                vstd::arithmetic::div_mod::lemma_mod_division_less_than_divisor(
                    old_cur as int,
                    pp,
                );
            }
        }
        if i < 31 {
            p = p / 16;
            proof {
                assert(pow16((31 - i) as nat) == 16 * pow16((30 - i) as nat));
                vstd::arithmetic::div_mod::lemma_div_multiples_vanish(
                    pow16((30 - i) as nat),
                    16,
                );
            }
        }
        i = i + 1;
    }
    proof {
        assert(pow16(0) == 1);
        assert(hex_to_int(digits@) == x as int);
    }
    // assemble: prefix, groups, hyphens
    let mut out: Vec<u8> = Vec::new();
    out.push(117);
    out.push(115);
    out.push(114);
    out.push(95);
    let out = append_range(out, &digits, 0, 8);
    let mut out = out;
    out.push(45);
    let out = append_range(out, &digits, 8, 12);
    let mut out = out;
    out.push(45);
    let out = append_range(out, &digits, 12, 16);
    let mut out = out;
    out.push(45);
    let out = append_range(out, &digits, 16, 20);
    let mut out = out;
    out.push(45);
    let out = append_range(out, &digits, 20, 32);
    proof {
        assert(out@.len() == 40);
        assert(id_digits(out@) =~= digits@);
        assert(valid_id_string(out@));
        lemma_str_of_id(out@);
    }
    out
}

fn append_range(out: Vec<u8>, digits: &Vec<u8>, start: usize, end: usize) -> (r: Vec<u8>)
    requires
        start <= end <= digits@.len(),
    ensures
        r@ == out@ + digits@.subrange(start as int, end as int),
{
    let mut acc = out;
    let ghost orig = acc@;
    let mut j = start;
    while j < end
        invariant
            start <= j <= end <= digits@.len(),
            acc@ == orig + digits@.subrange(start as int, j as int),
        decreases end - j,
    {
        acc.push(digits[j]);
        proof {
            assert(digits@.subrange(start as int, j + 1) =~= digits@.subrange(
                start as int,
                j as int,
            ).push(digits@[j as int]));
            assert(orig + digits@.subrange(start as int, j + 1) =~= (orig + digits@.subrange(
                start as int,
                j as int,
            )).push(digits@[j as int]));
        }
        j = j + 1;
    }
    proof {
        assert(acc@ =~= orig + digits@.subrange(start as int, end as int));
    }
    acc
}

} // verus!
