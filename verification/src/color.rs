//! Colors and their text form.

use crate::text;
use vstd::prelude::*;
use vstd::string::StringSliceAdditionalSpecFns;
use vstd::utf8::{encode_utf8, is_ascii_chars, is_ascii_chars_encode_utf8, is_char_boundary};

verus! {

#[derive(Copy, Clone, Hash, PartialEq, Eq, Structural, Debug)]
pub struct Color {
    pub r: u8,
    pub g: u8,
    pub b: u8,
    pub a: u8,
}

/// Why a text is no color.
#[derive(Copy, Clone, PartialEq, Eq, Structural, Debug)]
pub enum ColorError {
    /// It does not take up six or eight bytes.
    Length,
    /// A component is no hexadecimal number.
    Digit,
}

/// The digit that stands for `v`, below 16.
pub open spec fn hex_digit(v: int) -> char {
    if v < 10 {
        ('0' as int + v) as char
    } else {
        ('a' as int + v - 10) as char
    }
}

/// A component as two characters: a single digit has a space before it.
pub open spec fn hex_pair(v: u8) -> Seq<char> {
    seq![
        if v < 16 {
            ' '
        } else {
            hex_digit(v as int / 16)
        },
        hex_digit(v as int % 16),
    ]
}

/// What the byte of a hexadecimal digit stands for.
pub open spec fn hex_value(b: u8) -> Option<int> {
    if 48 <= b <= 57 {
        Some(b - 48)
    } else if 97 <= b <= 102 {
        Some(b - 87)
    } else if 65 <= b <= 70 {
        Some(b - 55)
    } else {
        None
    }
}

/// The component that two bytes stand for: two digits, or a plus sign and one.
pub open spec fn hex_component(first: u8, second: u8) -> Option<u8> {
    match hex_value(second) {
        None => None,
        Some(low) => if first == 43 {
            Some(low as u8)
        } else {
            match hex_value(first) {
                None => None,
                Some(high) => Some((high * 16 + low) as u8),
            }
        },
    }
}

/// The text form of a color: its components, the last only where it is not opaque.
pub open spec fn color_text(color: Color) -> Seq<char> {
    let opaque = hex_pair(color.r) + hex_pair(color.g) + hex_pair(color.b);
    if color.a == 255 {
        opaque
    } else {
        opaque + hex_pair(color.a)
    }
}

/// The color that the bytes of a text stand for.
pub open spec fn text_color(s: Seq<u8>) -> Result<Color, ColorError> {
    if s.len() != 6 && s.len() != 8 {
        Err(ColorError::Length)
    } else {
        let a = if s.len() == 8 {
            hex_component(s[6], s[7])
        } else {
            Some(255)
        };
        match (hex_component(s[0], s[1]), hex_component(s[2], s[3]), hex_component(s[4], s[5]), a) {
            (Some(r), Some(g), Some(b), Some(a)) => Ok(Color { r, g, b, a }),
            _ => Err(ColorError::Digit),
        }
    }
}

/// Whether no character lies across a cut between two components, as far as they are read: up to
/// the first that is no number.
pub open spec fn can_cut(s: Seq<u8>) -> bool {
    s.len() == 6 || s.len() == 8 ==> {
        &&& is_char_boundary(s, 2)
        &&& hex_component(s[0], s[1]) is Some ==> {
            &&& is_char_boundary(s, 4)
            &&& hex_component(s[2], s[3]) is Some ==> is_char_boundary(s, 6)
        }
    }
}

fn digit(v: u8) -> (r: char)
    requires
        v < 16,
    ensures
        r == hex_digit(v as int),
{
    if v < 10 {
        (48u8 + v) as char
    } else {
        (97u8 + (v - 10)) as char
    }
}

fn push_component(chars: &mut Vec<char>, v: u8)
    ensures
        final(chars)@ == old(chars)@ + hex_pair(v),
{
    let ghost before = chars@;
    if v < 16 {
        chars.push(' ');
    } else {
        chars.push(digit(v / 16));
    }
    chars.push(digit(v % 16));
    assert(chars@ =~= before + hex_pair(v));
}

fn digit_value(b: u8) -> (r: Option<u8>)
    ensures
        match r {
            Some(v) => hex_value(b) == Some(v as int) && v < 16,
            None => hex_value(b) is None,
        },
{
    if 48 <= b && b <= 57 {
        Some(b - 48)
    } else if 97 <= b && b <= 102 {
        Some(b - 87)
    } else if 65 <= b && b <= 70 {
        Some(b - 55)
    } else {
        None
    }
}

fn component(first: u8, second: u8) -> (r: Option<u8>)
    ensures
        r == hex_component(first, second),
{
    match digit_value(second) {
        None => None,
        Some(low) => if first == 43 {
            Some(low)
        } else {
            match digit_value(first) {
                None => None,
                Some(high) => Some(high * 16 + low),
            }
        },
    }
}

impl Color {
    pub fn white() -> (r: Color)
        ensures
            r == (Color { r: 255, g: 255, b: 255, a: 255 }),
    {
        Color::grayscale(255)
    }

    pub fn rgb(r: u8, g: u8, b: u8) -> (c: Color)
        ensures
            c == (Color { r, g, b, a: 255 }),
    {
        Color { r, g, b, a: 255 }
    }

    pub fn grayscale(v: u8) -> (c: Color)
        ensures
            c == (Color { r: v, g: v, b: v, a: 255 }),
    {
        Color { r: v, g: v, b: v, a: 255 }
    }

    /// The components in order.
    pub fn to_array(self) -> (r: [u8; 4])
        ensures
            r@ == seq![self.r, self.g, self.b, self.a],
    {
        let r = [self.r, self.g, self.b, self.a];
        assert(r@ =~= seq![self.r, self.g, self.b, self.a]);
        r
    }

    /// The color as text.
    pub fn to_text(self) -> (r: String)
        ensures
            r@ == color_text(self),
    {
        let mut chars: Vec<char> = Vec::new();
        push_component(&mut chars, self.r);
        push_component(&mut chars, self.g);
        push_component(&mut chars, self.b);
        if self.a != 255 {
            push_component(&mut chars, self.a);
        }
        assert(chars@ =~= color_text(self));
        text::from_chars(&chars)
    }

    /// The color that a text stands for.
    pub fn from_text(s: &str) -> (r: Result<Color, ColorError>)
        requires
            can_cut(s.spec_bytes()),
        ensures
            r == text_color(s.spec_bytes()),
    {
        let bytes = s.as_bytes();
        if bytes.len() != 6 && bytes.len() != 8 {
            return Err(ColorError::Length);
        }
        let r = component(bytes[0], bytes[1]);
        let g = component(bytes[2], bytes[3]);
        let b = component(bytes[4], bytes[5]);
        let a = if bytes.len() == 8 {
            component(bytes[6], bytes[7])
        } else {
            Some(255)
        };
        match (r, g, b, a) {
            (Some(r), Some(g), Some(b), Some(a)) => Ok(Color { r, g, b, a }),
            _ => Err(ColorError::Digit),
        }
    }
}

impl Default for Color {
    fn default() -> (r: Color)
        ensures
            r == (Color { r: 255, g: 255, b: 255, a: 255 }),
    {
        Color::white()
    }
}

/// A color whose components take two digits is read back from its text form. A component of one
/// digit is written with a space, which is no digit.
pub proof fn law_color_round_trip(color: Color)
    requires
        color.r >= 16,
        color.g >= 16,
        color.b >= 16,
        color.a >= 16,
    ensures
        text_color(encode_utf8(color_text(color))) == Ok::<Color, ColorError>(color),
{
    let t = color_text(color);
    assert(is_ascii_chars(t)) by {
        assert forall|i: int| 0 <= i < t.len() implies '\0' <= #[trigger] t[i] <= '\u{7f}' by {
            assert(t[0] == hex_pair(color.r)[0] && t[1] == hex_pair(color.r)[1]);
            assert(t[2] == hex_pair(color.g)[0] && t[3] == hex_pair(color.g)[1]);
            assert(t[4] == hex_pair(color.b)[0] && t[5] == hex_pair(color.b)[1]);
            if color.a != 255 {
                assert(t[6] == hex_pair(color.a)[0] && t[7] == hex_pair(color.a)[1]);
            }
        }
    }
    is_ascii_chars_encode_utf8(t);
    let s = encode_utf8(t);
    assert(t[0] as u8 == s[0] && t[1] as u8 == s[1] && t[2] as u8 == s[2] && t[3] as u8 == s[3]
        && t[4] as u8 == s[4] && t[5] as u8 == s[5]);
    if color.a != 255 {
        assert(t[6] as u8 == s[6] && t[7] as u8 == s[7]);
    }
    lemma_pair(color.r);
    lemma_pair(color.g);
    lemma_pair(color.b);
    lemma_pair(color.a);
}

proof fn lemma_pair(v: u8)
    requires
        v >= 16,
    ensures
        hex_component(hex_pair(v)[0] as u8, hex_pair(v)[1] as u8) == Some(v),
{
}

/// A hexadecimal digit stands for the number that it was made of, and capital letters for the same as
/// small ones.
pub proof fn law_hex_digits(v: int, b: u8)
    ensures
        0 <= v < 16 ==> hex_value(hex_digit(v) as u8) == Some(v),
        97 <= b <= 102 ==> hex_value(b) == hex_value((b - 32) as u8),
        hex_value(b) matches Some(n) ==> 0 <= n < 16,
{
}

/// The text of a color names red first, then green, then blue, and last how opaque the color is, unless
/// it is fully so. A text is read in the same order.
pub proof fn law_component_order(color: Color, s: Seq<u8>)
    ensures
        color_text(color).len() == if color.a == 255 {
            6int
        } else {
            8
        },
        color_text(color).subrange(0, 2) == hex_pair(color.r),
        color_text(color).subrange(2, 4) == hex_pair(color.g),
        color_text(color).subrange(4, 6) == hex_pair(color.b),
        color.a != 255 ==> color_text(color).subrange(6, 8) == hex_pair(color.a),
        text_color(s) matches Ok(c) ==> {
            &&& hex_component(s[0], s[1]) == Some(c.r)
            &&& hex_component(s[2], s[3]) == Some(c.g)
            &&& hex_component(s[4], s[5]) == Some(c.b)
            &&& s.len() == 6 ==> c.a == 255
            &&& s.len() == 8 ==> hex_component(s[6], s[7]) == Some(c.a)
        },
        text_color(s) == Err::<Color, ColorError>(ColorError::Length) <==> s.len() != 6 && s.len()
            != 8,
{
    let t = color_text(color);
    assert(t.subrange(0, 2) =~= hex_pair(color.r));
    assert(t.subrange(2, 4) =~= hex_pair(color.g));
    assert(t.subrange(4, 6) =~= hex_pair(color.b));
    if color.a != 255 {
        assert(t.subrange(6, 8) =~= hex_pair(color.a));
    }
}

} // verus!
