use vstd::prelude::*;

verus! {

/// One 8-bit color channel.
pub type ColorInt = u8;

/// An RGB color with three independent 8-bit channels.
///
/// Channel arithmetic saturates: addition clamps at 255 and subtraction
/// clamps at 0.
#[derive(Debug, Clone, Copy, PartialEq, Eq, Structural)]
pub struct Color {
    pub r: ColorInt,
    pub g: ColorInt,
    pub b: ColorInt,
}

/// Channel addition clamped at 255.
pub open spec fn sat_add(a: u8, d: u8) -> u8 {
    if a + d > 255 {
        255u8
    } else {
        (a + d) as u8
    }
}

/// Channel subtraction clamped at 0.
pub open spec fn sat_sub(a: u8, d: u8) -> u8 {
    if a < d {
        0u8
    } else {
        (a - d) as u8
    }
}

/// The color with every channel raised by its delta, clamped at 255.
pub open spec fn sp_color_plus(c: Color, r: u8, g: u8, b: u8) -> Color {
    Color { r: sat_add(c.r, r), g: sat_add(c.g, g), b: sat_add(c.b, b) }
}

/// The color with every channel lowered by its delta, clamped at 0.
pub open spec fn sp_color_minus(c: Color, r: u8, g: u8, b: u8) -> Color {
    Color { r: sat_sub(c.r, r), g: sat_sub(c.g, g), b: sat_sub(c.b, b) }
}

/// The value of one hex digit, or -1 for any other character.
/// Both lower and upper case digits are accepted.
pub open spec fn hex_val(c: char) -> int {
    let u = c as u32;
    if '0' as u32 <= u && u <= '9' as u32 {
        u - '0' as u32
    } else if 'a' as u32 <= u && u <= 'f' as u32 {
        u - 'a' as u32 + 10
    } else if 'A' as u32 <= u && u <= 'F' as u32 {
        u - 'A' as u32 + 10
    } else {
        -1
    }
}

pub open spec fn is_hex_char(c: char) -> bool {
    hex_val(c) >= 0
}

/// A hex digit as it is rendered: digits and lower-case letters only.
pub open spec fn is_lower_hex_char(c: char) -> bool {
    is_hex_char(c) && !('A' as u32 <= c as u32 && c as u32 <= 'F' as u32)
}

/// The lower-case character for one hex digit value.
pub open spec fn hex_char(v: int) -> char {
    if v == 0 {
        '0'
    } else if v == 1 {
        '1'
    } else if v == 2 {
        '2'
    } else if v == 3 {
        '3'
    } else if v == 4 {
        '4'
    } else if v == 5 {
        '5'
    } else if v == 6 {
        '6'
    } else if v == 7 {
        '7'
    } else if v == 8 {
        '8'
    } else if v == 9 {
        '9'
    } else if v == 10 {
        'a'
    } else if v == 11 {
        'b'
    } else if v == 12 {
        'c'
    } else if v == 13 {
        'd'
    } else if v == 14 {
        'e'
    } else {
        'f'
    }
}

/// The two lower-case hex digits of one channel value.
pub open spec fn sp_hex_byte(v: u8) -> Seq<char> {
    seq![hex_char(v as int / 16), hex_char(v as int % 16)]
}

/// The hex rendering of a color: `#` followed by six lower-case hex digits.
pub open spec fn sp_to_hex(c: Color) -> Seq<char> {
    seq!['#'] + sp_hex_byte(c.r) + sp_hex_byte(c.g) + sp_hex_byte(c.b)
}

/// The color denoted by six hex digit characters, or None if any of the six
/// characters is not a hex digit.
pub open spec fn sp_hex_color(s: Seq<char>) -> Option<Color>
    recommends
        s.len() == 6,
{
    if is_hex_char(s[0]) && is_hex_char(s[1]) && is_hex_char(s[2]) && is_hex_char(s[3])
        && is_hex_char(s[4]) && is_hex_char(s[5]) {
        Some(
            Color {
                r: (hex_val(s[0]) * 16 + hex_val(s[1])) as u8,
                g: (hex_val(s[2]) * 16 + hex_val(s[3])) as u8,
                b: (hex_val(s[4]) * 16 + hex_val(s[5])) as u8,
            },
        )
    } else {
        None
    }
}

fn hex_digit_val(c: char) -> (v: Option<u8>)
    ensures
        match v {
            Some(d) => hex_val(c) == d as int && d < 16,
            None => hex_val(c) < 0,
        },
{
    let u = c as u32;
    if '0' as u32 <= u && u <= '9' as u32 {
        Some((u - '0' as u32) as u8)
    } else if 'a' as u32 <= u && u <= 'f' as u32 {
        Some((u - 'a' as u32 + 10) as u8)
    } else if 'A' as u32 <= u && u <= 'F' as u32 {
        Some((u - 'A' as u32 + 10) as u8)
    } else {
        None
    }
}

fn hex_char_of(v: u8) -> (c: char)
    requires
        v < 16,
    ensures
        c == hex_char(v as int),
{
    match v {
        0 => '0',
        1 => '1',
        2 => '2',
        3 => '3',
        4 => '4',
        5 => '5',
        6 => '6',
        7 => '7',
        8 => '8',
        9 => '9',
        10 => 'a',
        11 => 'b',
        12 => 'c',
        13 => 'd',
        14 => 'e',
        _ => 'f',
    }
}

impl Color {
    pub fn new(r: ColorInt, g: ColorInt, b: ColorInt) -> (c: Self)
        ensures
            c == (Color { r, g, b }),
    {
        Color { r, g, b }
    }

    /// Adds the given deltas to the channels, clamping each channel at 255.
    pub fn plus(&self, r: ColorInt, g: ColorInt, b: ColorInt) -> (c: Self)
        ensures
            c.r == sat_add(self.r, r),
            c.g == sat_add(self.g, g),
            c.b == sat_add(self.b, b),
            c == sp_color_plus(*self, r, g, b),
    {
        let new_r = if r > 255 - self.r {
            255
        } else {
            self.r + r
        };
        let new_g = if g > 255 - self.g {
            255
        } else {
            self.g + g
        };
        let new_b = if b > 255 - self.b {
            255
        } else {
            self.b + b
        };
        Self { r: new_r, g: new_g, b: new_b }
    }

    /// Subtracts the given deltas from the channels, clamping each channel at 0.
    pub fn minus(&self, r: ColorInt, g: ColorInt, b: ColorInt) -> (c: Self)
        ensures
            c.r == sat_sub(self.r, r),
            c.g == sat_sub(self.g, g),
            c.b == sat_sub(self.b, b),
            c == sp_color_minus(*self, r, g, b),
    {
        let new_r = if self.r < r {
            0
        } else {
            self.r - r
        };
        let new_g = if self.g < g {
            0
        } else {
            self.g - g
        };
        let new_b = if self.b < b {
            0
        } else {
            self.b - b
        };
        Self { r: new_r, g: new_g, b: new_b }
    }

    /// Decodes a color from the first six characters, two hex digits per
    /// channel. Any non-hex character among the six gives None.
    pub fn from_hex_chars(chars: &Vec<char>) -> (c: Option<Self>)
        requires
            chars@.len() >= 6,
        ensures
            c == sp_hex_color(chars@.take(6)),
    {
        let r_hi = hex_digit_val(chars[0]);
        let r_lo = hex_digit_val(chars[1]);
        let g_hi = hex_digit_val(chars[2]);
        let g_lo = hex_digit_val(chars[3]);
        let b_hi = hex_digit_val(chars[4]);
        let b_lo = hex_digit_val(chars[5]);
        match (r_hi, r_lo, g_hi, g_lo, b_hi, b_lo) {
            (Some(rh), Some(rl), Some(gh), Some(gl), Some(bh), Some(bl)) => Some(
                Color { r: rh * 16 + rl, g: gh * 16 + gl, b: bh * 16 + bl },
            ),
            _ => None,
        }
    }

    /// Renders the color as `#` followed by six lower-case hex digits.
    pub fn to_hex_string(&self) -> (s: String)
        ensures
            s@ == sp_to_hex(*self),
    {
        let mut buf = String::new();
        buf.push('#');
        buf.push(hex_char_of(self.r / 16));
        buf.push(hex_char_of(self.r % 16));
        buf.push(hex_char_of(self.g / 16));
        buf.push(hex_char_of(self.g % 16));
        buf.push(hex_char_of(self.b / 16));
        buf.push(hex_char_of(self.b % 16));
        proof {
            assert(buf@ =~= sp_to_hex(*self));
        }
        buf
    }
}

/// Law: decoding six lower-case hex digits always succeeds, and rendering
/// the decoded color gives back `#` followed by exactly those six digits.
pub proof fn lemma_hex_round_trip(s: Seq<char>)
    requires
        s.len() == 6,
        forall|i: int| 0 <= i < 6 ==> is_lower_hex_char(#[trigger] s[i]),
    ensures
        sp_hex_color(s) is Some,
        sp_to_hex(sp_hex_color(s)->Some_0) == seq!['#'] + s,
{
    let c = sp_hex_color(s)->Some_0;
    assert forall|i: int| 0 <= i < 6 implies 0 <= #[trigger] hex_val(s[i]) < 16 by {
        assert(is_lower_hex_char(s[i]));
    }
    lemma_byte_digits(s[0], s[1]);
    lemma_byte_digits(s[2], s[3]);
    lemma_byte_digits(s[4], s[5]);
    assert(sp_to_hex(c) =~= seq!['#'] + s);
}

/// The two hex digits of a channel value built from two lower-case hex
/// digits are those digits again.
proof fn lemma_byte_digits(hi: char, lo: char)
    requires
        is_lower_hex_char(hi),
        is_lower_hex_char(lo),
    ensures
        sp_hex_byte(((hex_val(hi) * 16 + hex_val(lo)) as u8)) == seq![hi, lo],
{
    let v = (hex_val(hi) * 16 + hex_val(lo)) as u8;
    assert(0 <= hex_val(hi) < 16);
    assert(0 <= hex_val(lo) < 16);
    vstd::arithmetic::div_mod::lemma_fundamental_div_mod_converse(
        v as int,
        16,
        hex_val(hi),
        hex_val(lo),
    );
    assert(v as int / 16 == hex_val(hi));
    assert(v as int % 16 == hex_val(lo));
    lemma_hex_char_val(hi);
    lemma_hex_char_val(lo);
    assert(sp_hex_byte(v) =~= seq![hi, lo]);
}

/// Rendering the value of a lower-case hex digit gives that digit back.
proof fn lemma_hex_char_val(c: char)
    requires
        is_lower_hex_char(c),
    ensures
        hex_char(hex_val(c)) == c,
{
    let u = c as u32;
    if '0' as u32 <= u && u <= '9' as u32 {
        assert(hex_char(hex_val(c)) == c);
    } else {
        assert('a' as u32 <= u && u <= 'f' as u32);
        assert(hex_char(hex_val(c)) == c);
    }
}

} // verus!
