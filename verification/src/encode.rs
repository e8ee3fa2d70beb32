//! Parsing decimal floating-point literals and rendering their bit patterns:
//! suffix-driven width selection, separator stripping, and line assembly.
use vstd::prelude::*;
use vstd::string::StrSliceExecFns;
use vstd::string::StringExecFns;

use crate::bits::is_binary_shape;
use crate::bits::is_hex_digit_char;
use crate::bits::lemma_rendered_binary32_shape;
use crate::bits::lemma_rendered_binary64_shape;
use crate::bits::lemma_rendered_hex32_shape;
use crate::bits::lemma_rendered_hex64_shape;
use crate::bits::rendered_binary32;
use crate::bits::rendered_binary64;
use crate::bits::rendered_hex32;
use crate::bits::rendered_hex64;
use crate::bits::render_binary32;
use crate::bits::render_binary64;
use crate::bits::render_hex32;
use crate::bits::render_hex64;

verus! {

/// The two IEEE 754 widths a literal can carry.
#[derive(Clone, Copy, PartialEq, Eq, Structural, Debug)]
pub enum Width {
    W32,
    W64,
}

/// A literal whose numeric text is not a valid value of the inferred width.
#[derive(Debug)]
pub struct ParseError {
    /// The offending literal, with separators already removed.
    pub literal: String,
    /// The width the literal was checked against.
    pub width: Width,
}

// ---------------------------------------------------------------------------
// Separator stripping
// ---------------------------------------------------------------------------

/// `s` with every digit-group separator removed.
pub open spec fn strip_separators(s: Seq<char>) -> Seq<char>
    decreases s.len(),
{
    if s.len() == 0 {
        Seq::empty()
    } else {
        strip_separators(s.drop_last()) + (if s.last() == '_' {
            Seq::<char>::empty()
        } else {
            seq![s.last()]
        })
    }
}

proof fn lemma_strip_no_separator(s: Seq<char>)
    requires
        forall|i: int| 0 <= i < s.len() ==> s[i] != '_',
    ensures
        strip_separators(s) == s,
    decreases s.len(),
{
    if s.len() > 0 {
        lemma_strip_no_separator(s.drop_last());
        assert(strip_separators(s) =~= s);
    }
}

proof fn lemma_strip_free_of_separators(s: Seq<char>)
    ensures
        forall|i: int| 0 <= i < strip_separators(s).len() ==> strip_separators(s)[i] != '_',
    decreases s.len(),
{
    if s.len() > 0 {
        lemma_strip_free_of_separators(s.drop_last());
        let t = strip_separators(s.drop_last());
        assert forall|i: int| 0 <= i < strip_separators(s).len() implies strip_separators(s)[i]
            != '_' by {
            if i < t.len() {
                assert(strip_separators(s)[i] == t[i]);
            } else {
                assert(strip_separators(s)[i] == s.last());
            }
        }
    }
}

/// Stripping separators is idempotent.
pub proof fn lemma_strip_idempotent(s: Seq<char>)
    ensures
        strip_separators(strip_separators(s)) == strip_separators(s),
{
    lemma_strip_free_of_separators(s);
    lemma_strip_no_separator(strip_separators(s));
}

/// `s` with every `'_'` removed.
pub fn remove_separators(s: &str) -> (r: String)
    ensures
        r@ == strip_separators(s@),
{
    let n = s.unicode_len();
    let mut out = String::new();
    let mut i: usize = 0;
    while i < n
        invariant
            i <= n,
            n == s@.len(),
            out@ == strip_separators(s@.subrange(0, i as int)),
        decreases n - i,
    {
        let c = s.get_char(i);
        if c != '_' {
            out.append(s.substring_char(i, i + 1));
        }
        proof {
            assert(s@.subrange(0, i + 1).drop_last() =~= s@.subrange(0, i as int));
            assert(s@.subrange(0, i + 1).last() == s@[i as int]);
            assert(s@.subrange(i as int, i + 1) =~= seq![s@[i as int]]);
            assert(out@ =~= strip_separators(s@.subrange(0, i + 1)));
        }
        i = i + 1;
    }
    proof {
        assert(s@.subrange(0, n as int) =~= s@);
    }
    out
}

// ---------------------------------------------------------------------------
// Width suffix
// ---------------------------------------------------------------------------

pub open spec fn suffix32() -> Seq<char> {
    seq!['f', '3', '2']
}

pub open spec fn suffix64() -> Seq<char> {
    seq!['f', '6', '4']
}

/// `s` ends with `suf`.
pub open spec fn has_suffix(s: Seq<char>, suf: Seq<char>) -> bool {
    s.len() >= suf.len() && s.subrange(s.len() - suf.len(), s.len() as int) == suf
}

/// Whether `s` ends with the three characters `c0 c1 c2`.
fn ends_with3(s: &str, c0: char, c1: char, c2: char) -> (r: bool)
    ensures
        r == has_suffix(s@, seq![c0, c1, c2]),
{
    let n = s.unicode_len();
    if n < 3 {
        false
    } else {
        let r = s.get_char(n - 3) == c0 && s.get_char(n - 2) == c1 && s.get_char(n - 1) == c2;
        proof {
            let suf = seq![c0, c1, c2];
            let tail = s@.subrange(s@.len() - 3, s@.len() as int);
            if r {
                assert(tail =~= suf);
            }
            if has_suffix(s@, suf) {
                assert(s@[s@.len() - 3] == tail[0]);
                assert(s@[s@.len() - 2] == tail[1]);
                assert(s@[s@.len() - 1] == tail[2]);
            }
        }
        r
    }
}

/// The numeric text of a cleaned literal: a recognized suffix is removed,
/// anything else is parsed as it stands.
pub open spec fn spec_numeric_text(cleaned: Seq<char>) -> Seq<char> {
    if has_suffix(cleaned, suffix32()) || has_suffix(cleaned, suffix64()) {
        cleaned.subrange(0, cleaned.len() - 3)
    } else {
        cleaned
    }
}

// ---------------------------------------------------------------------------
// Parsing (trusted: std's decimal-to-binary conversion)
// ---------------------------------------------------------------------------

/// What parsing `text` as a 32-bit value yields: the bit pattern of the value
/// and the value's default decimal rendering, or `None` where the text is not
/// a valid 32-bit literal. A function of the text alone.
pub uninterp spec fn parsed32_of_text(text: Seq<char>) -> Option<(u32, Seq<char>)>;

/// What parsing `text` as a 64-bit value yields: the bit pattern of the value
/// and the value's default decimal rendering, or `None` where the text is not
/// a valid 64-bit literal. A function of the text alone.
pub uninterp spec fn parsed64_of_text(text: Seq<char>) -> Option<(u64, Seq<char>)>;

/// Relies on std's `str::parse` for the 32-bit float type (the platform's
/// correctly rounded decimal conversion, a function of the text alone), on the
/// type's `to_bits` (a width-preserving reinterpretation), and on the value's
/// default `format!` rendering. `libm::copysignf(v, v)` returns `v` bit for
/// bit (it merely selects `v`'s sign bits into `v`'s magnitude bits); it
/// stands here only to give the parsed value its concrete type. The parsed
/// value cannot cross this function's boundary, so the one body both parses
/// and renders it.
#[verifier::external_body]
fn parse_literal32(text: &str) -> (r: Option<(u32, String)>)
    ensures
        match r {
            Some(p) => parsed32_of_text(text@) == Some((p.0, p.1@)),
            None => parsed32_of_text(text@) is None,
        },
{
    match text.parse() {
        Ok(v) => {
            let v = libm::copysignf(v, v);
            Some((v.to_bits(), format!("{}", v)))
        },
        Err(_) => None,
    }
}

/// Relies on std's `str::parse` for the 64-bit float type (the platform's
/// correctly rounded decimal conversion, a function of the text alone), on the
/// type's `to_bits` (a width-preserving reinterpretation), and on the value's
/// default `format!` rendering. `libm::copysign(v, v)` returns `v` bit for
/// bit (it merely selects `v`'s sign bits into `v`'s magnitude bits); it
/// stands here only to give the parsed value its concrete type. The parsed
/// value cannot cross this function's boundary, so the one body both parses
/// and renders it.
#[verifier::external_body]
fn parse_literal64(text: &str) -> (r: Option<(u64, String)>)
    ensures
        match r {
            Some(p) => parsed64_of_text(text@) == Some((p.0, p.1@)),
            None => parsed64_of_text(text@) is None,
        },
{
    match text.parse() {
        Ok(v) => {
            let v = libm::copysign(v, v);
            Some((v.to_bits(), format!("{}", v)))
        },
        Err(_) => None,
    }
}

// ---------------------------------------------------------------------------
// One line per literal
// ---------------------------------------------------------------------------

/// The rendered pattern, optionally preceded by the value's decimal text.
pub open spec fn spec_decorated(body: Seq<char>, decimal: Seq<char>, prefix: bool) -> Seq<char> {
    if prefix {
        decimal + ": "@ + body
    } else {
        body
    }
}

/// The line `encode` yields for one literal, or the cleaned literal and the
/// width named by the error.
pub open spec fn spec_encode_one(lit: Seq<char>, hex: bool, prefix: bool) -> Result<
    Seq<char>,
    (Seq<char>, Width),
> {
    let cleaned = strip_separators(lit);
    let text = spec_numeric_text(cleaned);
    if has_suffix(cleaned, suffix32()) {
        match parsed32_of_text(text) {
            Some(p) => Ok(
                spec_decorated(
                    if hex {
                        rendered_hex32(p.0)
                    } else {
                        rendered_binary32(p.0)
                    },
                    p.1,
                    prefix,
                ),
            ),
            None => Err((cleaned, Width::W32)),
        }
    } else {
        match parsed64_of_text(text) {
            Some(p) => Ok(
                spec_decorated(
                    if hex {
                        rendered_hex64(p.0)
                    } else {
                        rendered_binary64(p.0)
                    },
                    p.1,
                    prefix,
                ),
            ),
            None => Err((cleaned, Width::W64)),
        }
    }
}

fn decorate(body: String, decimal: String, prefix: bool) -> (s: String)
    ensures
        s@ == spec_decorated(body@, decimal@, prefix),
{
    if prefix {
        let mut out = decimal;
        out.append(": ");
        out.append(body.as_str());
        out
    } else {
        body
    }
}

/// Formats one literal: strip separators, infer the width from the suffix,
/// parse the numeric text, and render the bit pattern. Fails exactly where
/// the numeric text is not a valid literal of the inferred width.
pub fn encode_one(literal: &str, hex: bool, prefix: bool) -> (r: Result<String, ParseError>)
    ensures
        match r {
            Ok(line) => spec_encode_one(literal@, hex, prefix) == Ok::<
                Seq<char>,
                (Seq<char>, Width),
            >(line@),
            Err(e) => spec_encode_one(literal@, hex, prefix) == Err::<
                Seq<char>,
                (Seq<char>, Width),
            >((e.literal@, e.width)),
        },
{
    let cleaned = remove_separators(literal);
    let n = cleaned.as_str().unicode_len();
    if ends_with3(cleaned.as_str(), 'f', '3', '2') {
        let text = cleaned.as_str().substring_char(0, n - 3);
        match parse_literal32(text) {
            Some(pair) => {
                let body = if hex {
                    render_hex32(pair.0)
                } else {
                    render_binary32(pair.0)
                };
                Ok(decorate(body, pair.1, prefix))
            },
            None => Err(ParseError { literal: cleaned, width: Width::W32 }),
        }
    } else if ends_with3(cleaned.as_str(), 'f', '6', '4') {
        let text = cleaned.as_str().substring_char(0, n - 3);
        match parse_literal64(text) {
            Some(pair) => {
                let body = if hex {
                    render_hex64(pair.0)
                } else {
                    render_binary64(pair.0)
                };
                Ok(decorate(body, pair.1, prefix))
            },
            None => Err(ParseError { literal: cleaned, width: Width::W64 }),
        }
    } else {
        match parse_literal64(cleaned.as_str()) {
            Some(pair) => {
                let body = if hex {
                    render_hex64(pair.0)
                } else {
                    render_binary64(pair.0)
                };
                Ok(decorate(body, pair.1, prefix))
            },
            None => Err(ParseError { literal: cleaned, width: Width::W64 }),
        }
    }
}

// ---------------------------------------------------------------------------
// Batches of literals
// ---------------------------------------------------------------------------

/// The output for a list of literals: one line per literal in input order,
/// joined by newlines, or the first error. Processing aborts at the first
/// literal that fails to parse.
pub open spec fn spec_encode_list(lits: Seq<Seq<char>>, hex: bool, prefix: bool) -> Result<
    Seq<char>,
    (Seq<char>, Width),
>
    decreases lits.len(),
{
    if lits.len() == 0 {
        Ok(Seq::empty())
    } else {
        match spec_encode_list(lits.drop_last(), hex, prefix) {
            Err(e) => Err(e),
            Ok(sofar) => match spec_encode_one(lits.last(), hex, prefix) {
                Err(e) => Err(e),
                Ok(line) => Ok(
                    if lits.len() == 1 {
                        line
                    } else {
                        sofar + seq!['\n'] + line
                    },
                ),
            },
        }
    }
}

proof fn lemma_encode_list_err(
    lits: Seq<Seq<char>>,
    hex: bool,
    prefix: bool,
    k: int,
    e: (Seq<char>, Width),
)
    requires
        0 <= k < lits.len(),
        spec_encode_list(lits.subrange(0, k), hex, prefix) is Ok,
        spec_encode_one(lits[k], hex, prefix) == Err::<Seq<char>, (Seq<char>, Width)>(e),
    ensures
        spec_encode_list(lits, hex, prefix) == Err::<Seq<char>, (Seq<char>, Width)>(e),
    decreases lits.len(),
{
    if lits.len() == k + 1 {
        assert(lits.drop_last() =~= lits.subrange(0, k));
    } else {
        assert(lits.drop_last().subrange(0, k) =~= lits.subrange(0, k));
        lemma_encode_list_err(lits.drop_last(), hex, prefix, k, e);
    }
}

/// Formats each literal of `nums` in input order, one line per literal,
/// the lines joined by newlines. Fails with the first literal whose numeric
/// text is not a valid value of its inferred width.
pub fn enc_floats(nums: Vec<&str>, hex: bool, prefix: bool) -> (r: Result<String, ParseError>)
    ensures
        match r {
            Ok(out) => spec_encode_list(nums.deep_view(), hex, prefix) == Ok::<
                Seq<char>,
                (Seq<char>, Width),
            >(out@),
            Err(e) => spec_encode_list(nums.deep_view(), hex, prefix) == Err::<
                Seq<char>,
                (Seq<char>, Width),
            >((e.literal@, e.width)),
        },
{
    let ghost lits = nums.deep_view();
    let mut out = String::new();
    let mut i: usize = 0;
    while i < nums.len()
        invariant
            i <= nums.len(),
            lits == nums.deep_view(),
            lits.len() == nums.len(),
            spec_encode_list(lits.subrange(0, i as int), hex, prefix) == Ok::<
                Seq<char>,
                (Seq<char>, Width),
            >(out@),
        decreases nums.len() - i,
    {
        proof {
            assert(lits[i as int] == nums[i as int]@);
        }
        match encode_one(nums[i], hex, prefix) {
            Ok(line) => {
                let ghost sofar = out@;
                if i > 0 {
                    out.append("\n");
                    proof {
                        reveal_strlit("\n");
                        assert("\n"@ =~= seq!['\n']);
                    }
                }
                out.append(line.as_str());
                proof {
                    assert(lits.subrange(0, i + 1).drop_last() =~= lits.subrange(0, i as int));
                    assert(lits.subrange(0, i + 1).last() == lits[i as int]);
                    if i > 0 {
                        assert(out@ =~= sofar + seq!['\n'] + line@);
                    }
                }
            },
            Err(e) => {
                proof {
                    lemma_encode_list_err(lits, hex, prefix, i as int, (e.literal@, e.width));
                }
                return Err(e);
            },
        }
        i = i + 1;
    }
    proof {
        assert(lits.subrange(0, lits.len() as int) =~= lits);
    }
    Ok(out)
}

// ---------------------------------------------------------------------------
// Diagnostics
// ---------------------------------------------------------------------------

/// The text naming a width.
pub open spec fn spec_width_text(w: Width) -> Seq<char> {
    match w {
        Width::W32 => "f32"@,
        Width::W64 => "f64"@,
    }
}

impl Width {
    /// The text naming this width.
    pub fn text(&self) -> (r: &'static str)
        ensures
            r@ == spec_width_text(*self),
    {
        match self {
            Width::W32 => "f32",
            Width::W64 => "f64",
        }
    }
}

/// The diagnostic for a failed literal: the width that was expected, then the
/// literal that was seen.
pub open spec fn spec_message(lit: Seq<char>, w: Width) -> Seq<char> {
    "expecting "@ + spec_width_text(w) + ", but was "@ + lit
}

impl ParseError {
    /// The diagnostic line naming the expected width and the offending literal.
    pub fn message(&self) -> (r: String)
        ensures
            r@ == spec_message(self.literal@, self.width),
    {
        let mut out = String::from_str("expecting ");
        out.append(self.width.text());
        out.append(", but was ");
        out.append(self.literal.as_str());
        out
    }
}

// ---------------------------------------------------------------------------
// Separators do not affect the encoding
// ---------------------------------------------------------------------------

/// A literal encodes exactly as the same literal with every digit-group
/// separator removed.
pub proof fn lemma_separators_ignored(lit: Seq<char>, hex: bool, prefix: bool)
    ensures
        spec_encode_one(lit, hex, prefix) == spec_encode_one(strip_separators(lit), hex, prefix),
{
    lemma_strip_idempotent(lit);
}

// ---------------------------------------------------------------------------
// Shape of every successfully encoded line
// ---------------------------------------------------------------------------

/// A 32-bit literal rendered in binary without a prefix is 34 characters:
/// 32 binary digits partitioned 1/8/23 by two single spaces.
pub proof fn lemma_encode_binary32_shape(lit: Seq<char>, line: Seq<char>)
    ensures
        (has_suffix(strip_separators(lit), suffix32()) && spec_encode_one(lit, false, false)
            == Ok::<Seq<char>, (Seq<char>, Width)>(line)) ==> is_binary_shape(line, 34, 1, 10),
{
    if has_suffix(strip_separators(lit), suffix32()) && spec_encode_one(lit, false, false)
        == Ok::<Seq<char>, (Seq<char>, Width)>(line) {
        let text = spec_numeric_text(strip_separators(lit));
        match parsed32_of_text(text) {
            Some(p) => {
                lemma_rendered_binary32_shape(p.0);
            },
            None => {
                assert(false);
            },
        }
    }
}

/// A 64-bit literal (an `f64` suffix or none) rendered in binary without a
/// prefix is 66 characters: 64 binary digits partitioned 1/11/52 by two
/// single spaces.
pub proof fn lemma_encode_binary64_shape(lit: Seq<char>, line: Seq<char>)
    ensures
        (!has_suffix(strip_separators(lit), suffix32()) && spec_encode_one(lit, false, false)
            == Ok::<Seq<char>, (Seq<char>, Width)>(line)) ==> is_binary_shape(line, 66, 1, 13),
{
    if !has_suffix(strip_separators(lit), suffix32()) && spec_encode_one(lit, false, false)
        == Ok::<Seq<char>, (Seq<char>, Width)>(line) {
        let text = spec_numeric_text(strip_separators(lit));
        match parsed64_of_text(text) {
            Some(p) => {
                lemma_rendered_binary64_shape(p.0);
            },
            None => {
                assert(false);
            },
        }
    }
}

/// A 32-bit literal rendered in hexadecimal without a prefix is one group of
/// exactly 8 hexadecimal digits.
pub proof fn lemma_encode_hex32_shape(lit: Seq<char>, line: Seq<char>)
    ensures
        (has_suffix(strip_separators(lit), suffix32()) && spec_encode_one(lit, true, false)
            == Ok::<Seq<char>, (Seq<char>, Width)>(line)) ==> line.len() == 8 && (forall|i: int|
            0 <= i < 8 ==> is_hex_digit_char(#[trigger] line[i])),
{
    if has_suffix(strip_separators(lit), suffix32()) && spec_encode_one(lit, true, false)
        == Ok::<Seq<char>, (Seq<char>, Width)>(line) {
        let text = spec_numeric_text(strip_separators(lit));
        match parsed32_of_text(text) {
            Some(p) => {
                lemma_rendered_hex32_shape(p.0);
            },
            None => {
                assert(false);
            },
        }
    }
}

/// A 64-bit literal rendered in hexadecimal without a prefix is two groups of
/// exactly 8 hexadecimal digits separated by a single space.
pub proof fn lemma_encode_hex64_shape(lit: Seq<char>, line: Seq<char>)
    ensures
        (!has_suffix(strip_separators(lit), suffix32()) && spec_encode_one(lit, true, false)
            == Ok::<Seq<char>, (Seq<char>, Width)>(line)) ==> line.len() == 17 && line[8] == ' '
            && (forall|i: int| 0 <= i < 17 && i != 8 ==> is_hex_digit_char(#[trigger] line[i])),
{
    if !has_suffix(strip_separators(lit), suffix32()) && spec_encode_one(lit, true, false)
        == Ok::<Seq<char>, (Seq<char>, Width)>(line) {
        let text = spec_numeric_text(strip_separators(lit));
        match parsed64_of_text(text) {
            Some(p) => {
                lemma_rendered_hex64_shape(p.0);
            },
            None => {
                assert(false);
            },
        }
    }
}

} // verus!
