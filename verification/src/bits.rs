//! Bit-level rendering of IEEE 754 patterns: binary digits split into
//! sign / exponent / mantissa fields, and hexadecimal digits in 32-bit groups.
use vstd::prelude::*;
use vstd::string::StrSliceExecFns;
use vstd::string::StringExecFns;

verus! {

// ---------------------------------------------------------------------------
// Binary digits
// ---------------------------------------------------------------------------

/// Character standing for bit `pos` of `bits`.
pub open spec fn bit_char64(bits: u64, pos: u64) -> char {
    if (bits >> pos) & 1 == 1 {
        '1'
    } else {
        '0'
    }
}

/// Character standing for bit `pos` of `bits`.
pub open spec fn bit_char32(bits: u32, pos: u32) -> char {
    if (bits >> pos) & 1 == 1 {
        '1'
    } else {
        '0'
    }
}

/// The 64 binary digits of `bits`, most significant first.
pub open spec fn binary_digits64(bits: u64) -> Seq<char> {
    Seq::new(64, |i: int| bit_char64(bits, (63 - i) as u64))
}

/// The 32 binary digits of `bits`, most significant first.
pub open spec fn binary_digits32(bits: u32) -> Seq<char> {
    Seq::new(32, |i: int| bit_char32(bits, (31 - i) as u32))
}

pub open spec fn space() -> Seq<char> {
    seq![' ']
}

/// Binary rendering of a 64-bit pattern: 1 sign digit, 11 exponent digits and
/// 52 mantissa digits, the fields separated by single spaces.
pub open spec fn rendered_binary64(bits: u64) -> Seq<char> {
    let d = binary_digits64(bits);
    d.subrange(0, 1) + space() + d.subrange(1, 12) + space() + d.subrange(12, 64)
}

/// Binary rendering of a 32-bit pattern: 1 sign digit, 8 exponent digits and
/// 23 mantissa digits, the fields separated by single spaces.
pub open spec fn rendered_binary32(bits: u32) -> Seq<char> {
    let d = binary_digits32(bits);
    d.subrange(0, 1) + space() + d.subrange(1, 9) + space() + d.subrange(9, 32)
}

/// The string standing for a single binary digit.
fn bit_digit_str(one: bool) -> (r: &'static str)
    ensures
        r@ == seq![if one { '1' } else { '0' }],
{
    if one {
        proof {
            reveal_strlit("1");
            assert("1"@ =~= seq!['1']);
        }
        "1"
    } else {
        proof {
            reveal_strlit("0");
            assert("0"@ =~= seq!['0']);
        }
        "0"
    }
}

/// The 64 binary digits of `bits` as a string, most significant first.
pub fn binary_string64(bits: u64) -> (s: String)
    ensures
        s@ == binary_digits64(bits),
{
    let mut out = String::new();
    let mut i: usize = 0;
    while i < 64
        invariant
            i <= 64,
            out@ =~= binary_digits64(bits).subrange(0, i as int),
        decreases 64 - i,
    {
        let sh: u64 = (63 - i) as u64;
        let one: bool = (bits >> sh) & 1 == 1;
        out.append(bit_digit_str(one));
        proof {
            assert(out@ =~= binary_digits64(bits).subrange(0, i + 1));
        }
        i = i + 1;
    }
    proof {
        assert(out@ =~= binary_digits64(bits));
    }
    out
}

/// The 32 binary digits of `bits` as a string, most significant first.
pub fn binary_string32(bits: u32) -> (s: String)
    ensures
        s@ == binary_digits32(bits),
{
    let mut out = String::new();
    let mut i: usize = 0;
    while i < 32
        invariant
            i <= 32,
            out@ =~= binary_digits32(bits).subrange(0, i as int),
        decreases 32 - i,
    {
        let sh: u32 = (31 - i) as u32;
        let one: bool = (bits >> sh) & 1 == 1;
        out.append(bit_digit_str(one));
        proof {
            assert(out@ =~= binary_digits32(bits).subrange(0, i + 1));
        }
        i = i + 1;
    }
    proof {
        assert(out@ =~= binary_digits32(bits));
    }
    out
}

/// Field-separated binary rendering of a 64-bit pattern.
pub fn render_binary64(bits: u64) -> (s: String)
    ensures
        s@ == rendered_binary64(bits),
{
    let digits = binary_string64(bits);
    let d: &str = digits.as_str();
    let mut out = String::from_str(d.substring_char(0, 1));
    out.append(" ");
    out.append(d.substring_char(1, 12));
    out.append(" ");
    out.append(d.substring_char(12, 64));
    proof {
        reveal_strlit(" ");
        assert(" "@ =~= space());
        assert(out@ =~= rendered_binary64(bits));
    }
    out
}

/// Field-separated binary rendering of a 32-bit pattern.
pub fn render_binary32(bits: u32) -> (s: String)
    ensures
        s@ == rendered_binary32(bits),
{
    let digits = binary_string32(bits);
    let d: &str = digits.as_str();
    let mut out = String::from_str(d.substring_char(0, 1));
    out.append(" ");
    out.append(d.substring_char(1, 9));
    out.append(" ");
    out.append(d.substring_char(9, 32));
    proof {
        reveal_strlit(" ");
        assert(" "@ =~= space());
        assert(out@ =~= rendered_binary32(bits));
    }
    out
}

// ---------------------------------------------------------------------------
// Hexadecimal digits
// ---------------------------------------------------------------------------

/// Lower-case character standing for the value of one hexadecimal digit.
pub open spec fn hex_char(nibble: u64) -> char {
    if nibble == 0 {
        '0'
    } else if nibble == 1 {
        '1'
    } else if nibble == 2 {
        '2'
    } else if nibble == 3 {
        '3'
    } else if nibble == 4 {
        '4'
    } else if nibble == 5 {
        '5'
    } else if nibble == 6 {
        '6'
    } else if nibble == 7 {
        '7'
    } else if nibble == 8 {
        '8'
    } else if nibble == 9 {
        '9'
    } else if nibble == 10 {
        'a'
    } else if nibble == 11 {
        'b'
    } else if nibble == 12 {
        'c'
    } else if nibble == 13 {
        'd'
    } else if nibble == 14 {
        'e'
    } else {
        'f'
    }
}

/// The 16 hexadecimal digits of `bits`, most significant first.
pub open spec fn hex_digits64(bits: u64) -> Seq<char> {
    Seq::new(16, |i: int| hex_char((bits >> (((15 - i) * 4) as u64)) & 0xf))
}

/// The 8 hexadecimal digits of `bits`, most significant first.
pub open spec fn hex_digits32(bits: u32) -> Seq<char> {
    Seq::new(8, |i: int| hex_char(((bits >> (((7 - i) * 4) as u32)) & 0xf) as u64))
}

/// Hexadecimal rendering of a 64-bit pattern: two groups of 8 digits (high
/// word, then low word) separated by a single space.
pub open spec fn rendered_hex64(bits: u64) -> Seq<char> {
    let d = hex_digits64(bits);
    d.subrange(0, 8) + space() + d.subrange(8, 16)
}

/// Hexadecimal rendering of a 32-bit pattern: one group of 8 digits.
pub open spec fn rendered_hex32(bits: u32) -> Seq<char> {
    hex_digits32(bits)
}

/// The string standing for a single hexadecimal digit.
fn hex_digit_str(nibble: u64) -> (r: &'static str)
    requires
        nibble < 16,
    ensures
        r@ == seq![hex_char(nibble)],
{
    if nibble == 0 {
        proof {
            reveal_strlit("0");
            assert("0"@ =~= seq![hex_char(0)]);
        }
        "0"
    } else if nibble == 1 {
        proof {
            reveal_strlit("1");
            assert("1"@ =~= seq![hex_char(1)]);
        }
        "1"
    } else if nibble == 2 {
        proof {
            reveal_strlit("2");
            assert("2"@ =~= seq![hex_char(2)]);
        }
        "2"
    } else if nibble == 3 {
        proof {
            reveal_strlit("3");
            assert("3"@ =~= seq![hex_char(3)]);
        }
        "3"
    } else if nibble == 4 {
        proof {
            reveal_strlit("4");
            assert("4"@ =~= seq![hex_char(4)]);
        }
        "4"
    } else if nibble == 5 {
        proof {
            reveal_strlit("5");
            assert("5"@ =~= seq![hex_char(5)]);
        }
        "5"
    } else if nibble == 6 {
        proof {
            reveal_strlit("6");
            assert("6"@ =~= seq![hex_char(6)]);
        }
        "6"
    } else if nibble == 7 {
        proof {
            reveal_strlit("7");
            assert("7"@ =~= seq![hex_char(7)]);
        }
        "7"
    } else if nibble == 8 {
        proof {
            reveal_strlit("8");
            assert("8"@ =~= seq![hex_char(8)]);
        }
        "8"
    } else if nibble == 9 {
        proof {
            reveal_strlit("9");
            assert("9"@ =~= seq![hex_char(9)]);
        }
        "9"
    } else if nibble == 10 {
        proof {
            reveal_strlit("a");
            assert("a"@ =~= seq![hex_char(10)]);
        }
        "a"
    } else if nibble == 11 {
        proof {
            reveal_strlit("b");
            assert("b"@ =~= seq![hex_char(11)]);
        }
        "b"
    } else if nibble == 12 {
        proof {
            reveal_strlit("c");
            assert("c"@ =~= seq![hex_char(12)]);
        }
        "c"
    } else if nibble == 13 {
        proof {
            reveal_strlit("d");
            assert("d"@ =~= seq![hex_char(13)]);
        }
        "d"
    } else if nibble == 14 {
        proof {
            reveal_strlit("e");
            assert("e"@ =~= seq![hex_char(14)]);
        }
        "e"
    } else {
        proof {
            reveal_strlit("f");
            assert("f"@ =~= seq![hex_char(15)]);
        }
        "f"
    }
}

/// The 16 hexadecimal digits of `bits` as a string, most significant first.
pub fn hex_string64(bits: u64) -> (s: String)
    ensures
        s@ == hex_digits64(bits),
{
    let mut out = String::new();
    let mut i: usize = 0;
    while i < 16
        invariant
            i <= 16,
            out@ =~= hex_digits64(bits).subrange(0, i as int),
        decreases 16 - i,
    {
        let sh: u64 = ((15 - i) * 4) as u64;
        let nibble: u64 = (bits >> sh) & 0xf;
        proof {
            assert((bits >> sh) & 0xf < 16) by (bit_vector);
        }
        out.append(hex_digit_str(nibble));
        proof {
            assert(out@ =~= hex_digits64(bits).subrange(0, i + 1));
        }
        i = i + 1;
    }
    proof {
        assert(out@ =~= hex_digits64(bits));
    }
    out
}

/// The 8 hexadecimal digits of `bits` as a string, most significant first.
pub fn hex_string32(bits: u32) -> (s: String)
    ensures
        s@ == hex_digits32(bits),
{
    let mut out = String::new();
    let mut i: usize = 0;
    while i < 8
        invariant
            i <= 8,
            out@ =~= hex_digits32(bits).subrange(0, i as int),
        decreases 8 - i,
    {
        let sh: u32 = ((7 - i) * 4) as u32;
        let nibble: u32 = (bits >> sh) & 0xf;
        proof {
            assert((bits >> sh) & 0xf < 16) by (bit_vector);
        }
        out.append(hex_digit_str(nibble as u64));
        proof {
            assert(out@ =~= hex_digits32(bits).subrange(0, i + 1));
        }
        i = i + 1;
    }
    proof {
        assert(out@ =~= hex_digits32(bits));
    }
    out
}

/// Word-separated hexadecimal rendering of a 64-bit pattern.
pub fn render_hex64(bits: u64) -> (s: String)
    ensures
        s@ == rendered_hex64(bits),
{
    let digits = hex_string64(bits);
    let d: &str = digits.as_str();
    let mut out = String::from_str(d.substring_char(0, 8));
    out.append(" ");
    out.append(d.substring_char(8, 16));
    proof {
        reveal_strlit(" ");
        assert(" "@ =~= space());
        assert(out@ =~= rendered_hex64(bits));
    }
    out
}

/// Hexadecimal rendering of a 32-bit pattern: a single 8-digit group.
pub fn render_hex32(bits: u32) -> (s: String)
    ensures
        s@ == rendered_hex32(bits),
{
    hex_string32(bits)
}

// ---------------------------------------------------------------------------
// Shape of the rendered forms
// ---------------------------------------------------------------------------

pub open spec fn is_bit_char(c: char) -> bool {
    c == '0' || c == '1'
}

pub open spec fn is_hex_digit_char(c: char) -> bool {
    ||| c == '0'
    ||| c == '1'
    ||| c == '2'
    ||| c == '3'
    ||| c == '4'
    ||| c == '5'
    ||| c == '6'
    ||| c == '7'
    ||| c == '8'
    ||| c == '9'
    ||| c == 'a'
    ||| c == 'b'
    ||| c == 'c'
    ||| c == 'd'
    ||| c == 'e'
    ||| c == 'f'
}

/// `s` is `total` characters: binary digits throughout, except single spaces
/// at `sp1` and `sp2`.
pub open spec fn is_binary_shape(s: Seq<char>, total: int, sp1: int, sp2: int) -> bool {
    &&& s.len() == total
    &&& s[sp1] == ' '
    &&& s[sp2] == ' '
    &&& forall|i: int| 0 <= i < total && i != sp1 && i != sp2 ==> is_bit_char(#[trigger] s[i])
}

/// A rendered 64-bit binary pattern is 66 characters: 1 sign digit, a space,
/// 11 exponent digits, a space, and 52 mantissa digits.
pub proof fn lemma_rendered_binary64_shape(bits: u64)
    ensures
        is_binary_shape(rendered_binary64(bits), 66, 1, 13),
{
    let d = binary_digits64(bits);
    let r = rendered_binary64(bits);
    assert forall|i: int| 0 <= i < 66 && i != 1 && i != 13 implies is_bit_char(#[trigger] r[i]) by {
        if i < 1 {
            assert(r[i] == d[0]);
        } else if i < 13 {
            assert(r[i] == d[i - 1]);
        } else {
            assert(r[i] == d[i - 2]);
        }
    }
}

/// A rendered 32-bit binary pattern is 34 characters: 1 sign digit, a space,
/// 8 exponent digits, a space, and 23 mantissa digits.
pub proof fn lemma_rendered_binary32_shape(bits: u32)
    ensures
        is_binary_shape(rendered_binary32(bits), 34, 1, 10),
{
    let d = binary_digits32(bits);
    let r = rendered_binary32(bits);
    assert forall|i: int| 0 <= i < 34 && i != 1 && i != 10 implies is_bit_char(#[trigger] r[i]) by {
        if i < 1 {
            assert(r[i] == d[0]);
        } else if i < 10 {
            assert(r[i] == d[i - 1]);
        } else {
            assert(r[i] == d[i - 2]);
        }
    }
}

/// A rendered 64-bit hexadecimal pattern is two 8-digit groups separated by
/// one space: 17 characters.
pub proof fn lemma_rendered_hex64_shape(bits: u64)
    ensures
        rendered_hex64(bits).len() == 17,
        rendered_hex64(bits)[8] == ' ',
        forall|i: int|
            0 <= i < 17 && i != 8 ==> is_hex_digit_char(#[trigger] rendered_hex64(bits)[i]),
{
    let d = hex_digits64(bits);
    let r = rendered_hex64(bits);
    assert forall|i: int| 0 <= i < 17 && i != 8 implies is_hex_digit_char(#[trigger] r[i]) by {
        if i < 8 {
            assert(r[i] == d[i]);
        } else {
            assert(r[i] == d[i - 1]);
        }
    }
}

/// A rendered 32-bit hexadecimal pattern is one 8-digit group.
pub proof fn lemma_rendered_hex32_shape(bits: u32)
    ensures
        rendered_hex32(bits).len() == 8,
        forall|i: int| 0 <= i < 8 ==> is_hex_digit_char(#[trigger] rendered_hex32(bits)[i]),
{
}

// ---------------------------------------------------------------------------
// Reversing the layout recovers the pattern
// ---------------------------------------------------------------------------

/// Value of a string of binary digits, most significant first.
pub open spec fn binary_value(s: Seq<char>) -> nat
    decreases s.len(),
{
    if s.len() == 0 {
        0
    } else {
        2 * binary_value(s.drop_last()) + (if s.last() == '1' {
            1nat
        } else {
            0nat
        })
    }
}

/// Value of one hexadecimal digit character.
pub open spec fn hex_char_value(c: char) -> nat {
    if c == '0' {
        0
    } else if c == '1' {
        1
    } else if c == '2' {
        2
    } else if c == '3' {
        3
    } else if c == '4' {
        4
    } else if c == '5' {
        5
    } else if c == '6' {
        6
    } else if c == '7' {
        7
    } else if c == '8' {
        8
    } else if c == '9' {
        9
    } else if c == 'a' {
        10
    } else if c == 'b' {
        11
    } else if c == 'c' {
        12
    } else if c == 'd' {
        13
    } else if c == 'e' {
        14
    } else {
        15
    }
}

/// Value of a string of hexadecimal digits, most significant first.
pub open spec fn hex_value(s: Seq<char>) -> nat
    decreases s.len(),
{
    if s.len() == 0 {
        0
    } else {
        16 * hex_value(s.drop_last()) + hex_char_value(s.last())
    }
}

/// The binary digits of the low `k` bits of `bits`, most significant first.
spec fn low_binary_digits64(bits: u64, k: nat) -> Seq<char> {
    Seq::new(k, |i: int| bit_char64(bits, (k - 1 - i) as u64))
}

proof fn lemma_binary_value_low64(bits: u64, k: nat)
    requires
        k <= 64,
        k < 64 ==> bits >> (k as u64) == 0,
    ensures
        binary_value(low_binary_digits64(bits, k)) == bits,
    decreases k,
{
    if k == 0 {
        assert(bits >> 0u64 == bits) by (bit_vector);
        assert(low_binary_digits64(bits, 0) =~= Seq::<char>::empty());
    } else {
        let s = low_binary_digits64(bits, k);
        let half = bits >> 1u64;
        let kk = k as u64;
        assert forall|i: int| 0 <= i < k - 1 implies s[i] == low_binary_digits64(
            half,
            (k - 1) as nat,
        )[i] by {
            let sh = (k - 1 - i) as u64;
            assert(1 <= sh < 64 ==> (bits >> sh) & 1 == ((bits >> 1u64) >> (sh - 1) as u64)
                & 1) by (bit_vector);
        }
        assert(s.drop_last() =~= low_binary_digits64(half, (k - 1) as nat));
        if k == 64 {
            assert((bits >> 1u64) >> 63u64 == 0) by (bit_vector);
        } else {
            assert(1 <= kk < 64 && bits >> kk == 0 ==> (bits >> 1u64) >> (kk - 1) as u64
                == 0) by (bit_vector);
        }
        lemma_binary_value_low64(half, (k - 1) as nat);
        assert(s.last() == bit_char64(bits, 0));
        assert(2 * (bits >> 1u64) + (bits & 1) == bits && (bits >> 0u64) & 1 == bits & 1 && (bits
            & 1 == 0 || bits & 1 == 1)) by (bit_vector);
    }
}

/// The binary digits of the low `k` bits of `bits`, most significant first.
spec fn low_binary_digits32(bits: u32, k: nat) -> Seq<char> {
    Seq::new(k, |i: int| bit_char32(bits, (k - 1 - i) as u32))
}

proof fn lemma_binary_value_low32(bits: u32, k: nat)
    requires
        k <= 32,
        k < 32 ==> bits >> (k as u32) == 0,
    ensures
        binary_value(low_binary_digits32(bits, k)) == bits,
    decreases k,
{
    if k == 0 {
        assert(bits >> 0u32 == bits) by (bit_vector);
        assert(low_binary_digits32(bits, 0) =~= Seq::<char>::empty());
    } else {
        let s = low_binary_digits32(bits, k);
        let half = bits >> 1u32;
        let kk = k as u32;
        assert forall|i: int| 0 <= i < k - 1 implies s[i] == low_binary_digits32(
            half,
            (k - 1) as nat,
        )[i] by {
            let sh = (k - 1 - i) as u32;
            assert(1 <= sh < 32 ==> (bits >> sh) & 1 == ((bits >> 1u32) >> (sh - 1) as u32)
                & 1) by (bit_vector);
        }
        assert(s.drop_last() =~= low_binary_digits32(half, (k - 1) as nat));
        if k == 32 {
            assert((bits >> 1u32) >> 31u32 == 0) by (bit_vector);
        } else {
            assert(1 <= kk < 32 && bits >> kk == 0 ==> (bits >> 1u32) >> (kk - 1) as u32
                == 0) by (bit_vector);
        }
        lemma_binary_value_low32(half, (k - 1) as nat);
        assert(s.last() == bit_char32(bits, 0));
        assert(2 * (bits >> 1u32) + (bits & 1) == bits && (bits >> 0u32) & 1 == bits & 1 && (bits
            & 1 == 0 || bits & 1 == 1)) by (bit_vector);
    }
}

/// Reading the 64 binary digits of a pattern back as a number recovers it.
pub proof fn lemma_binary_digits64_value(bits: u64)
    ensures
        binary_value(binary_digits64(bits)) == bits,
{
    assert(binary_digits64(bits) =~= low_binary_digits64(bits, 64));
    lemma_binary_value_low64(bits, 64);
}

/// Reading the 32 binary digits of a pattern back as a number recovers it.
pub proof fn lemma_binary_digits32_value(bits: u32)
    ensures
        binary_value(binary_digits32(bits)) == bits,
{
    assert(binary_digits32(bits) =~= low_binary_digits32(bits, 32));
    lemma_binary_value_low32(bits, 32);
}

/// The pattern read back from a rendered 64-bit binary form: drop the two
/// separating spaces and read the digits as a binary number.
pub open spec fn pattern_of_rendered_binary64(s: Seq<char>) -> nat {
    binary_value(s.subrange(0, 1) + s.subrange(2, 13) + s.subrange(14, 66))
}

/// The pattern read back from a rendered 32-bit binary form.
pub open spec fn pattern_of_rendered_binary32(s: Seq<char>) -> nat {
    binary_value(s.subrange(0, 1) + s.subrange(2, 10) + s.subrange(11, 34))
}

/// Reversing the binary layout of a rendered 64-bit pattern reproduces the
/// pattern exactly.
pub proof fn lemma_binary64_round_trip(bits: u64)
    ensures
        pattern_of_rendered_binary64(rendered_binary64(bits)) == bits,
{
    let r = rendered_binary64(bits);
    assert(r.subrange(0, 1) + r.subrange(2, 13) + r.subrange(14, 66) =~= binary_digits64(bits));
    lemma_binary_digits64_value(bits);
}

/// Reversing the binary layout of a rendered 32-bit pattern reproduces the
/// pattern exactly.
pub proof fn lemma_binary32_round_trip(bits: u32)
    ensures
        pattern_of_rendered_binary32(rendered_binary32(bits)) == bits,
{
    let r = rendered_binary32(bits);
    assert(r.subrange(0, 1) + r.subrange(2, 10) + r.subrange(11, 34) =~= binary_digits32(bits));
    lemma_binary_digits32_value(bits);
}

/// The hexadecimal digits of the low `4 * k` bits of `bits`, most significant
/// first.
spec fn low_hex_digits64(bits: u64, k: nat) -> Seq<char> {
    Seq::new(k, |i: int| hex_char((bits >> (((k - 1 - i) * 4) as u64)) & 0xf))
}

proof fn lemma_hex_value_low64(bits: u64, k: nat)
    requires
        k <= 16,
        k < 16 ==> bits >> ((4 * k) as u64) == 0,
    ensures
        hex_value(low_hex_digits64(bits, k)) == bits,
    decreases k,
{
    if k == 0 {
        assert(bits >> 0u64 == bits) by (bit_vector);
        assert(low_hex_digits64(bits, 0) =~= Seq::<char>::empty());
    } else {
        let s = low_hex_digits64(bits, k);
        let q = bits >> 4u64;
        let kk4 = ((4 * k) as u64);
        assert forall|i: int| 0 <= i < k - 1 implies s[i] == low_hex_digits64(
            q,
            (k - 1) as nat,
        )[i] by {
            let sh = (((k - 1 - i) * 4) as u64);
            assert(4 <= sh < 64 ==> (bits >> sh) & 0xf == ((bits >> 4u64) >> (sh - 4) as u64)
                & 0xf) by (bit_vector);
        }
        assert(s.drop_last() =~= low_hex_digits64(q, (k - 1) as nat));
        if k == 16 {
            assert((bits >> 4u64) >> 60u64 == 0) by (bit_vector);
        } else {
            assert(4 <= kk4 < 64 && bits >> kk4 == 0 ==> (bits >> 4u64) >> (kk4 - 4) as u64
                == 0) by (bit_vector);
        }
        lemma_hex_value_low64(q, (k - 1) as nat);
        assert(s.last() == hex_char((bits >> 0u64) & 0xf));
        assert(16 * (bits >> 4u64) + (bits & 0xf) == bits && (bits >> 0u64) & 0xf == bits & 0xf
            && bits & 0xf < 16) by (bit_vector);
        assert(hex_char_value(hex_char(bits & 0xf)) == bits & 0xf);
    }
}

/// The hexadecimal digits of the low `4 * k` bits of `bits`, most significant
/// first.
spec fn low_hex_digits32(bits: u32, k: nat) -> Seq<char> {
    Seq::new(k, |i: int| hex_char(((bits >> (((k - 1 - i) * 4) as u32)) & 0xf) as u64))
}

proof fn lemma_hex_value_low32(bits: u32, k: nat)
    requires
        k <= 8,
        k < 8 ==> bits >> ((4 * k) as u32) == 0,
    ensures
        hex_value(low_hex_digits32(bits, k)) == bits,
    decreases k,
{
    if k == 0 {
        assert(bits >> 0u32 == bits) by (bit_vector);
        assert(low_hex_digits32(bits, 0) =~= Seq::<char>::empty());
    } else {
        let s = low_hex_digits32(bits, k);
        let q = bits >> 4u32;
        let kk4 = ((4 * k) as u32);
        assert forall|i: int| 0 <= i < k - 1 implies s[i] == low_hex_digits32(
            q,
            (k - 1) as nat,
        )[i] by {
            let sh = (((k - 1 - i) * 4) as u32);
            assert(4 <= sh < 32 ==> (bits >> sh) & 0xf == ((bits >> 4u32) >> (sh - 4) as u32)
                & 0xf) by (bit_vector);
        }
        assert(s.drop_last() =~= low_hex_digits32(q, (k - 1) as nat));
        if k == 8 {
            assert((bits >> 4u32) >> 28u32 == 0) by (bit_vector);
        } else {
            assert(4 <= kk4 < 32 && bits >> kk4 == 0 ==> (bits >> 4u32) >> (kk4 - 4) as u32
                == 0) by (bit_vector);
        }
        lemma_hex_value_low32(q, (k - 1) as nat);
        assert(s.last() == hex_char(((bits >> 0u32) & 0xf) as u64));
        assert(16 * (bits >> 4u32) + (bits & 0xf) == bits && (bits >> 0u32) & 0xf == bits & 0xf
            && bits & 0xf < 16) by (bit_vector);
        assert(hex_char_value(hex_char((bits & 0xf) as u64)) == bits & 0xf);
    }
}

/// Reading the 16 hexadecimal digits of a pattern back recovers it.
pub proof fn lemma_hex_digits64_value(bits: u64)
    ensures
        hex_value(hex_digits64(bits)) == bits,
{
    assert(hex_digits64(bits) =~= low_hex_digits64(bits, 16));
    lemma_hex_value_low64(bits, 16);
}

/// Reading the 8 hexadecimal digits of a pattern back recovers it.
pub proof fn lemma_hex_digits32_value(bits: u32)
    ensures
        hex_value(hex_digits32(bits)) == bits,
{
    assert(hex_digits32(bits) =~= low_hex_digits32(bits, 8));
    lemma_hex_value_low32(bits, 8);
}

/// The pattern read back from a rendered 64-bit hexadecimal form: drop the
/// separating space and read the digits as a hexadecimal number.
pub open spec fn pattern_of_rendered_hex64(s: Seq<char>) -> nat {
    hex_value(s.subrange(0, 8) + s.subrange(9, 17))
}

/// The pattern read back from a rendered 32-bit hexadecimal form.
pub open spec fn pattern_of_rendered_hex32(s: Seq<char>) -> nat {
    hex_value(s)
}

/// Reversing the layout of a rendered 64-bit hexadecimal pattern reproduces
/// the pattern exactly.
pub proof fn lemma_hex64_round_trip(bits: u64)
    ensures
        pattern_of_rendered_hex64(rendered_hex64(bits)) == bits,
{
    let r = rendered_hex64(bits);
    assert(r.subrange(0, 8) + r.subrange(9, 17) =~= hex_digits64(bits));
    lemma_hex_digits64_value(bits);
}

/// Reversing the layout of a rendered 32-bit hexadecimal pattern reproduces
/// the pattern exactly.
pub proof fn lemma_hex32_round_trip(bits: u32)
    ensures
        pattern_of_rendered_hex32(rendered_hex32(bits)) == bits,
{
    assert(rendered_hex32(bits) =~= hex_digits32(bits));
    lemma_hex_digits32_value(bits);
}

} // verus!
