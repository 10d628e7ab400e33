//! Colours as RGB triples and as `#RRGGBB` strings, with conversions
//! between the two and a sealed `ColorSpace` trait over both.

use vstd::prelude::*;
use crate::text::{chars_of, push_decimal, push_str, decimal};

pub mod sealed;

verus! {

/// `char::is_ascii_hexdigit`.
pub open spec fn is_hex_digit(c: char) -> bool {
    ('0' <= c && c <= '9') || ('a' <= c && c <= 'f') || ('A' <= c && c <= 'F')
}

/// `char::to_ascii_uppercase` on a hexadecimal digit.
pub open spec fn upper(c: char) -> char {
    if 'a' <= c && c <= 'f' {
        ((c as u32) - 32) as char
    } else {
        c
    }
}

/// The value of a hexadecimal digit.
pub open spec fn hex_val(c: char) -> nat {
    if '0' <= c && c <= '9' {
        ((c as u32) - ('0' as u32)) as nat
    } else if 'a' <= c && c <= 'f' {
        ((c as u32) - ('a' as u32) + 10) as nat
    } else {
        ((c as u32) - ('A' as u32) + 10) as nat
    }
}

/// The upper-case hexadecimal digit for `v < 16`.
pub open spec fn hex_digit(v: nat) -> char {
    if v < 10 {
        ((('0' as u32) + v) as u32) as char
    } else {
        ((('A' as u32) + v - 10) as u32) as char
    }
}

/// Two upper-case hexadecimal digits for a byte (`{:02X}`).
pub open spec fn hex_pair(v: u8) -> Seq<char> {
    seq![hex_digit((v / 16) as nat), hex_digit((v % 16) as nat)]
}

/// `s` is `#` followed by exactly six hexadecimal digits.
pub open spec fn is_hex_color(s: Seq<char>) -> bool {
    &&& s.len() == 7
    &&& s[0] == '#'
    &&& forall|i: int| 1 <= i < 7 ==> is_hex_digit(#[trigger] s[i])
}

/// A valid colour string with its digits in upper case.
pub open spec fn is_normal_hex(s: Seq<char>) -> bool {
    &&& is_hex_color(s)
    &&& forall|i: int| 1 <= i < 7 ==> #[trigger] upper(s[i]) == s[i]
}

/// The colour string with its digits in upper case.
pub open spec fn normalize_hex(s: Seq<char>) -> Seq<char> {
    Seq::new(7, |i: int| if i == 0 { '#' } else { upper(s[i]) })
}

/// A red, green and blue component of 8 bits each.
#[derive(Clone, Copy, PartialEq, Eq, Debug, Structural)]
pub struct Rgb(pub u8, pub u8, pub u8);

/// `#RRGGBB` in upper-case hexadecimal.
pub open spec fn rgb_hex(c: Rgb) -> Seq<char> {
    seq!['#'] + hex_pair(c.0) + hex_pair(c.1) + hex_pair(c.2)
}

/// The byte written by the digits at `i` and `i + 1` of `s`.
pub open spec fn byte_at(s: Seq<char>, i: int) -> u8 {
    (hex_val(s[i]) * 16 + hex_val(s[i + 1])) as u8
}

/// The colour that a `#RRGGBB` string names.
pub open spec fn hex_rgb(s: Seq<char>) -> Rgb {
    Rgb(byte_at(s, 1), byte_at(s, 3), byte_at(s, 5))
}

/// `rgb(r, g, b)` with decimal components.
pub open spec fn rgb_text(c: Rgb) -> Seq<char> {
    seq!['r', 'g', 'b', '('] + decimal(c.0 as nat) + seq![',', ' '] + decimal(c.1 as nat) + seq![',', ' ']
        + decimal(c.2 as nat) + seq![')']
}

impl Rgb {
    pub fn new(r: u8, g: u8, b: u8) -> (c: Rgb)
        ensures
            c == Rgb(r, g, b),
    {
        Rgb(r, g, b)
    }

    /// The colour as `rgb(r, g, b)`.
    pub fn display(&self) -> (s: String)
        ensures
            s@ == rgb_text(*self),
    {
        let mut s = String::new();
        s.push('r');
        s.push('g');
        s.push('b');
        s.push('(');
        push_decimal(&mut s, self.0 as u64);
        s.push(',');
        s.push(' ');
        push_decimal(&mut s, self.1 as u64);
        s.push(',');
        s.push(' ');
        push_decimal(&mut s, self.2 as u64);
        s.push(')');
        assert(s@ =~= rgb_text(*self));
        s
    }

    /// The colour that a normalised colour string names.
    pub fn from(hex: &HexColor) -> (c: Rgb)
        ensures
            c == hex_rgb(hex@),
            is_normal_hex(hex@),
    {
        proof { use_type_invariant(hex); }
        let cs = chars_of(hex.0.as_str());
        let r = parse_byte(cs[1], cs[2]);
        let g = parse_byte(cs[3], cs[4]);
        let b = parse_byte(cs[5], cs[6]);
        Rgb(r, g, b)
    }
}

/// Why a colour string was refused.
#[derive(Debug)]
pub enum ColorError {
    /// Not `#` followed by six hexadecimal digits; holds the input.
    InvalidHexFormat(String),
}

impl ColorError {
    /// `Invalid hex color: 'INPUT' (expected #RRGGBB)`.
    pub fn display(&self) -> (s: String)
        ensures
            match self {
                ColorError::InvalidHexFormat(input) => s@ == "Invalid hex color: '"@ + input@ + "' (expected #RRGGBB)"@,
            },
    {
        match self {
            ColorError::InvalidHexFormat(input) => {
                let mut s = String::new();
                push_str(&mut s, "Invalid hex color: '");
                push_str(&mut s, input.as_str());
                push_str(&mut s, "' (expected #RRGGBB)");
                s
            },
        }
    }
}

/// A colour string: `#` and six upper-case hexadecimal digits.
pub struct HexColor(String);

impl View for HexColor {
    type V = Seq<char>;

    closed spec fn view(&self) -> Seq<char> {
        self.0@
    }
}

impl HexColor {
    #[verifier::type_invariant]
    closed spec fn normal(self) -> bool {
        is_normal_hex(self.0@)
    }

    /// Accepts `#` followed by six hexadecimal digits in either case,
    /// and stores the digits in upper case.
    pub fn try_from(s: &str) -> (r: Result<HexColor, ColorError>)
        ensures
            is_hex_color(s@) ==> (r matches Ok(h) && h@ == normalize_hex(s@)),
            !is_hex_color(s@) ==> (r matches Err(ColorError::InvalidHexFormat(t)) && t@ == s@),
    {
        let cs = chars_of(s);
        let mut ok = cs.len() == 7 && cs[0] == '#';
        let mut i: usize = 1;
        while ok && i < 7
            invariant
                cs@ == s@,
                1 <= i <= 7,
                ok ==> cs.len() == 7 && cs[0] == '#',
                ok ==> forall|k: int| 1 <= k < i ==> is_hex_digit(#[trigger] cs@[k]),
                !ok ==> !is_hex_color(s@),
            decreases 7 - i,
        {
            if !is_hex_digit_exec(cs[i]) {
                ok = false;
            }
            i = i + 1;
        }
        if !ok {
            return Err(ColorError::InvalidHexFormat(s.to_owned()));
        }
        let mut out = String::new();
        out.push('#');
        let mut k: usize = 1;
        while k < 7
            invariant
                cs@ == s@,
                is_hex_color(s@),
                1 <= k <= 7,
                out@ == normalize_hex(s@).take(k as int),
            decreases 7 - k,
        {
            out.push(upper_exec(cs[k]));
            assert(out@ =~= normalize_hex(s@).take(k + 1));
            k = k + 1;
        }
        assert(out@ =~= normalize_hex(s@));
        proof {
            assert forall|i: int| 1 <= i < 7 implies #[trigger] upper(out@[i]) == out@[i] && is_hex_digit(out@[i]) by {
                assert(is_hex_digit(s@[i]));
            }
        }
        Ok(HexColor(out))
    }

    /// The upper-case colour string for an RGB colour.
    pub fn from(rgb: Rgb) -> (h: HexColor)
        ensures
            h@ == rgb_hex(rgb),
    {
        let mut s = String::new();
        s.push('#');
        push_hex_pair(&mut s, rgb.0);
        push_hex_pair(&mut s, rgb.1);
        push_hex_pair(&mut s, rgb.2);
        proof {
            assert(s@ =~= rgb_hex(rgb));
            lemma_hex_pair_normal(rgb.0);
            lemma_hex_pair_normal(rgb.1);
            lemma_hex_pair_normal(rgb.2);
            assert forall|i: int| 1 <= i < 7 implies #[trigger] upper(s@[i]) == s@[i] && is_hex_digit(s@[i]) by {
                if i < 3 {
                    assert(s@[i] == hex_pair(rgb.0)[i - 1]);
                } else if i < 5 {
                    assert(s@[i] == hex_pair(rgb.1)[i - 3]);
                } else {
                    assert(s@[i] == hex_pair(rgb.2)[i - 5]);
                }
            }
        }
        HexColor(s)
    }

    /// The colour string.
    pub fn as_str(&self) -> (s: &str)
        ensures
            s@ == self@,
            is_normal_hex(s@),
    {
        proof { use_type_invariant(self); }
        self.0.as_str()
    }
}

fn is_hex_digit_exec(c: char) -> (b: bool)
    ensures
        b == is_hex_digit(c),
{
    ('0' <= c && c <= '9') || ('a' <= c && c <= 'f') || ('A' <= c && c <= 'F')
}

fn upper_exec(c: char) -> (u: char)
    ensures
        u == upper(c),
{
    if c == 'a' { 'A' } else if c == 'b' { 'B' } else if c == 'c' { 'C' } else if c == 'd' { 'D' }
    else if c == 'e' { 'E' } else if c == 'f' { 'F' } else { c }
}

fn hex_digit_exec(v: u8) -> (c: char)
    requires
        v < 16,
    ensures
        c == hex_digit(v as nat),
{
    if v < 10 {
        (48u8 + v) as char
    } else {
        (55u8 + v) as char
    }
}

fn hex_val_exec(c: char) -> (v: u8)
    requires
        is_hex_digit(c),
    ensures
        v == hex_val(c),
        v < 16,
{
    if '0' <= c && c <= '9' {
        ((c as u32) - 48) as u8
    } else if 'a' <= c && c <= 'f' {
        ((c as u32) - 87) as u8
    } else {
        ((c as u32) - 55) as u8
    }
}

fn parse_byte(hi: char, lo: char) -> (b: u8)
    requires
        is_hex_digit(hi),
        is_hex_digit(lo),
    ensures
        b == (hex_val(hi) * 16 + hex_val(lo)) as u8,
{
    let h = hex_val_exec(hi);
    let l = hex_val_exec(lo);
    h * 16 + l
}

fn push_hex_pair(s: &mut String, v: u8)
    ensures
        final(s)@ == old(s)@ + hex_pair(v),
{
    s.push(hex_digit_exec(v / 16));
    s.push(hex_digit_exec(v % 16));
}

proof fn lemma_hex_pair_normal(v: u8)
    ensures
        forall|i: int| 0 <= i < 2 ==> #[trigger] is_hex_digit(hex_pair(v)[i]) && upper(hex_pair(v)[i]) == hex_pair(v)[i],
        hex_val(hex_pair(v)[0]) * 16 + hex_val(hex_pair(v)[1]) == v,
{
    assert(v / 16 < 16);
}

/// Converting a colour to its string and back gives the colour again.
pub proof fn law_rgb_hex_round_trip(c: Rgb)
    ensures
        is_normal_hex(rgb_hex(c)),
        hex_rgb(rgb_hex(c)) == c,
{
    lemma_hex_pair_normal(c.0);
    lemma_hex_pair_normal(c.1);
    lemma_hex_pair_normal(c.2);
    let s = rgb_hex(c);
    assert(s[1] == hex_pair(c.0)[0] && s[2] == hex_pair(c.0)[1]);
    assert(s[3] == hex_pair(c.1)[0] && s[4] == hex_pair(c.1)[1]);
    assert(s[5] == hex_pair(c.2)[0] && s[6] == hex_pair(c.2)[1]);
    assert forall|i: int| 1 <= i < 7 implies #[trigger] upper(s[i]) == s[i] && is_hex_digit(s[i]) by {
        if i < 3 {
            assert(s[i] == hex_pair(c.0)[i - 1]);
        } else if i < 5 {
            assert(s[i] == hex_pair(c.1)[i - 3]);
        } else {
            assert(s[i] == hex_pair(c.2)[i - 5]);
        }
    }
}

/// In `#RRGGBB` the first pair of digits is the red component in base 16,
/// the second green and the third blue, most significant digit first.
pub proof fn law_hex_digits_name_channels(c: Rgb)
    ensures
        rgb_hex(c).len() == 7,
        rgb_hex(c)[0] == '#',
        hex_val(rgb_hex(c)[1]) * 16 + hex_val(rgb_hex(c)[2]) == c.0,
        hex_val(rgb_hex(c)[3]) * 16 + hex_val(rgb_hex(c)[4]) == c.1,
        hex_val(rgb_hex(c)[5]) * 16 + hex_val(rgb_hex(c)[6]) == c.2,
        hex_val(rgb_hex(c)[1]) < 16 && hex_val(rgb_hex(c)[2]) < 16,
{
    lemma_hex_pair_normal(c.0);
    lemma_hex_pair_normal(c.1);
    lemma_hex_pair_normal(c.2);
    let s = rgb_hex(c);
    assert(s[1] == hex_pair(c.0)[0] && s[2] == hex_pair(c.0)[1]);
    assert(s[3] == hex_pair(c.1)[0] && s[4] == hex_pair(c.1)[1]);
    assert(s[5] == hex_pair(c.2)[0] && s[6] == hex_pair(c.2)[1]);
    assert(c.0 / 16 < 16);
}

/// Reading a normalised colour string and writing it out again gives the
/// same string.
pub proof fn law_hex_rgb_round_trip(s: Seq<char>)
    requires
        is_normal_hex(s),
    ensures
        rgb_hex(hex_rgb(s)) == s,
{
    assert forall|i: int| 1 <= i < 7 implies hex_digit(hex_val(#[trigger] s[i])) == s[i] && hex_val(s[i]) < 16 by {
        assert(is_hex_digit(s[i]) && upper(s[i]) == s[i]);
    }
    assert forall|i: int| i == 1 || i == 3 || i == 5 implies
        hex_pair(#[trigger] byte_at(s, i)) =~= seq![s[i], s[i + 1]] by {
        let a = hex_val(s[i]);
        let b = hex_val(s[i + 1]);
        assert(a < 16 && b < 16);
        assert((a * 16 + b) / 16 == a && (a * 16 + b) % 16 == b) by (nonlinear_arith)
            requires a < 16, b < 16;
    }
    assert(rgb_hex(hex_rgb(s)) =~= s);
}

/// A colour representation that can be turned into RGB; only the types of
/// this crate implement it.
pub trait ColorSpace: sealed::Sealed {
    /// The RGB colour that this value stands for.
    spec fn rgb_value(&self) -> Rgb;

    /// The name of the representation.
    spec fn label_text(&self) -> Seq<char>;

    fn to_rgb(&self) -> (c: Rgb)
        ensures
            c == self.rgb_value(),
    ;

    fn label(&self) -> (s: &'static str)
        ensures
            s@ == self.label_text(),
    ;
}

impl sealed::Sealed for Rgb {}

impl sealed::Sealed for HexColor {}

impl ColorSpace for Rgb {
    open spec fn rgb_value(&self) -> Rgb {
        *self
    }

    open spec fn label_text(&self) -> Seq<char> {
        seq!['R', 'G', 'B']
    }

    fn to_rgb(&self) -> (c: Rgb) {
        *self
    }

    fn label(&self) -> (s: &'static str) {
        proof { reveal_strlit("RGB"); }
        "RGB"
    }
}

impl ColorSpace for HexColor {
    open spec fn rgb_value(&self) -> Rgb {
        hex_rgb(self@)
    }

    open spec fn label_text(&self) -> Seq<char> {
        seq!['H', 'e', 'x']
    }

    fn to_rgb(&self) -> (c: Rgb) {
        Rgb::from(self)
    }

    fn label(&self) -> (s: &'static str) {
        proof { reveal_strlit("Hex"); }
        "Hex"
    }
}

} // verus!
