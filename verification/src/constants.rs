//! Colours, as they stand in the site's settings.

use crate::root::hex_digit;
use crate::text::chars_of;
use vstd::prelude::*;
use vstd::string::*;

verus! {

broadcast use vstd::string::group_string_axioms;

/// The result of a step of the build: a value, or a message for the user.
pub type MyResult<T> = Result<T, String>;

/// A colour: red, green and blue.
#[derive(Debug)]
pub struct Color {
    r: u8,
    g: u8,
    b: u8,
}

impl View for Color {
    type V = (u8, u8, u8);

    closed spec fn view(&self) -> (u8, u8, u8) {
        (self.r, self.g, self.b)
    }
}

/// The two hex digits of `n`.
pub open spec fn hex_byte(n: u8) -> Seq<char> {
    seq![hex_digit(n as int / 16), hex_digit(n as int % 16)]
}

/// A colour as it is written: `#` and two hex digits each for red, green and blue.
pub open spec fn color_text(c: (u8, u8, u8)) -> Seq<char> {
    seq!['#'] + hex_byte(c.0) + hex_byte(c.1) + hex_byte(c.2)
}

/// The value of a hex digit, in either case.
pub open spec fn hex_value(c: char) -> Option<int> {
    if '0' <= c <= '9' {
        Some(c as int - '0' as int)
    } else if 'a' <= c <= 'f' {
        Some(c as int - 'a' as int + 10)
    } else if 'A' <= c <= 'F' {
        Some(c as int - 'A' as int + 10)
    } else {
        None
    }
}

/// The value of two characters read as a hex number: two hex digits, or `+` and one.
pub open spec fn hex_pair(a: char, b: char) -> Option<int> {
    if a == '+' {
        hex_value(b)
    } else {
        match (hex_value(a), hex_value(b)) {
            (Some(x), Some(y)) => Some(x * 16 + y),
            _ => None,
        }
    }
}

/// The colour that `s` spells, or what is wrong with it.
pub open spec fn color_parsed(s: Seq<char>) -> Result<(u8, u8, u8), Seq<char>> {
    if s.len() == 0 {
        Err("Color must be 7 characters long"@)
    } else if s[0] != '#' {
        Err("Color must start with #"@)
    } else if s.len() != 7 {
        Err("Color must be 7 characters long"@)
    } else {
        match hex_pair(s[1], s[2]) {
            None => Err("Could not parse the red value"@),
            Some(r) => match hex_pair(s[3], s[4]) {
                None => Err("Could not parse the green value"@),
                Some(g) => match hex_pair(s[5], s[6]) {
                    None => Err("Could not parse the blue value"@),
                    Some(b) => Ok((r as u8, g as u8, b as u8)),
                },
            },
        }
    }
}

fn hex(d: u8) -> (c: char)
    requires
        d < 16,
    ensures
        c == hex_digit(d as int),
{
    if d < 10 {
        (48u8 + d) as char
    } else {
        (87u8 + d) as char
    }
}

fn value_of(c: char) -> (res: Option<u8>)
    ensures
        match res {
            Some(v) => hex_value(c) == Some(v as int) && v < 16,
            None => hex_value(c) is None,
        },
{
    if '0' <= c && c <= '9' {
        Some((c as u32 - '0' as u32) as u8)
    } else if 'a' <= c && c <= 'f' {
        Some((c as u32 - 'a' as u32 + 10) as u8)
    } else if 'A' <= c && c <= 'F' {
        Some((c as u32 - 'A' as u32 + 10) as u8)
    } else {
        None
    }
}

fn pair_of(a: char, b: char) -> (res: Option<u8>)
    ensures
        match res {
            Some(v) => hex_pair(a, b) == Some(v as int),
            None => hex_pair(a, b) is None,
        },
{
    if a == '+' {
        return value_of(b);
    }
    match (value_of(a), value_of(b)) {
        (Some(x), Some(y)) => Some(x * 16 + y),
        _ => None,
    }
}

impl Color {
    pub fn new(r: u8, g: u8, b: u8) -> (res: Color)
        ensures
            res@ == (r, g, b),
    {
        Color { r, g, b }
    }

    /// Red, green and blue.
    pub fn rgb(&self) -> (res: (u8, u8, u8))
        ensures
            res == self@,
    {
        (self.r, self.g, self.b)
    }

    /// Black for a light colour, white for a dark one: the colour of text on this colour.
    pub fn bw(&self) -> (res: Color)
        ensures
            res@ == if self@.0 + self@.1 + self@.2 > 387 {
                (0u8, 0u8, 0u8)
            } else {
                (255u8, 255u8, 255u8)
            },
    {
        let sum = self.r as u16 + self.g as u16 + self.b as u16;
        if sum > 387 {
            Color { r: 0, g: 0, b: 0 }
        } else {
            Color { r: 255, g: 255, b: 255 }
        }
    }

    /// The colour as it is written.
    pub fn to_string(&self) -> (res: String)
        ensures
            res@ == color_text(self@),
    {
        let mut out = String::new();
        out.push('#');
        out.push(hex(self.r / 16));
        out.push(hex(self.r % 16));
        out.push(hex(self.g / 16));
        out.push(hex(self.g % 16));
        out.push(hex(self.b / 16));
        out.push(hex(self.b % 16));
        assert(out@ =~= color_text(self@));
        out
    }

    /// Reads a colour.
    pub fn from_str(s: &str) -> (res: Result<Color, &'static str>)
        ensures
            match res {
                Ok(c) => color_parsed(s@) == Ok::<(u8, u8, u8), Seq<char>>(c@),
                Err(e) => color_parsed(s@) == Err::<(u8, u8, u8), Seq<char>>(e@),
            },
    {
        let chars = chars_of(s);
        if chars.len() == 0 {
            return Err("Color must be 7 characters long");
        }
        if chars[0] != '#' {
            return Err("Color must start with #");
        }
        if chars.len() != 7 {
            return Err("Color must be 7 characters long");
        }
        let r = match pair_of(chars[1], chars[2]) {
            Some(u) => u,
            None => {
                return Err("Could not parse the red value");
            },
        };
        let g = match pair_of(chars[3], chars[4]) {
            Some(u) => u,
            None => {
                return Err("Could not parse the green value");
            },
        };
        let b = match pair_of(chars[5], chars[6]) {
            Some(u) => u,
            None => {
                return Err("Could not parse the blue value");
            },
        };
        Ok(Color { r, g, b })
    }
}

} // verus!
