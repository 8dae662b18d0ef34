//! Packed 32-bit RGBA colours.

use vstd::prelude::*;

verus! {

/// The 32-bit value whose bytes, from most to least significant, are `r`, `g`, `b`, `a`.
pub open spec fn pack(r: u8, g: u8, b: u8, a: u8) -> u32 {
    (r * 0x100_0000 + g * 0x1_0000 + b * 0x100 + a) as u32
}

/// The four bytes of `value`, most significant first.
pub open spec fn unpack(value: u32) -> (u8, u8, u8, u8) {
    (
        (value / 0x100_0000) as u8,
        (value / 0x1_0000 % 0x100) as u8,
        (value / 0x100 % 0x100) as u8,
        (value % 0x100) as u8,
    )
}

/// A colour with red, green, blue and alpha channels.
#[derive(Copy, Clone, Debug, PartialEq, Eq, Structural)]
pub struct Color32 {
    pub r: u8,
    pub g: u8,
    pub b: u8,
    pub a: u8,
}

/// A colour without an alpha channel.
#[derive(Copy, Clone, Debug, PartialEq, Eq, Structural)]
pub struct Color24 {
    pub r: u8,
    pub g: u8,
    pub b: u8,
}

impl Color32 {
    /// The packed value of this colour.
    pub open spec fn packed(self) -> u32 {
        pack(self.r, self.g, self.b, self.a)
    }

    /// The colour whose packed value is `value`.
    pub open spec fn unpacked(value: u32) -> Color32 {
        let (r, g, b, a) = unpack(value);
        Color32 { r, g, b, a }
    }

    pub fn new(r: u8, g: u8, b: u8, a: u8) -> (color: Color32)
        ensures
            color == (Color32 { r, g, b, a }),
    {
        Color32 { r, g, b, a }
    }

    /// Packs the channels into one value, red in the most significant byte.
    pub fn get_pixel_value(&self) -> (value: u32)
        ensures
            value == self.packed(),
            Color32::unpacked(value) == *self,
    {
        let r: u8 = self.r;
        let g: u8 = self.g;
        let b: u8 = self.b;
        let a: u8 = self.a;
        let value: u32 = ((r as u32) << 24) | ((g as u32) << 16) | ((b as u32) << 8) | (a as u32);
        assert(value == r * 0x100_0000 + g * 0x1_0000 + b * 0x100 + a) by (bit_vector)
            requires
                value == ((r as u32) << 24) | ((g as u32) << 16) | ((b as u32) << 8) | (a as u32),
        ;
        proof {
            lemma_unpack_pack(r, g, b, a);
        }
        value
    }

    /// Splits a packed value into its channels, red from the most significant byte.
    pub fn from_pixel_value(value: u32) -> (color: Color32)
        ensures
            color == Color32::unpacked(value),
            color.packed() == value,
    {
        let r: u8 = (value >> 24) as u8;
        let g: u8 = ((value >> 16) & 0xff) as u8;
        let b: u8 = ((value >> 8) & 0xff) as u8;
        let a: u8 = (value & 0xff) as u8;
        assert(value >> 24 == value / 0x100_0000 && (value >> 16) & 0xff == value / 0x1_0000 % 0x100
            && (value >> 8) & 0xff == value / 0x100 % 0x100 && value & 0xff == value % 0x100)
            by (bit_vector);
        proof {
            lemma_pack_unpack(value);
        }
        Color32 { r, g, b, a }
    }

    /// The opaque grey of the given lightness.
    pub fn grey(level: u8) -> (color: Color32)
        ensures
            color == (Color32 { r: level, g: level, b: level, a: 255 }),
    {
        Color32 { r: level, g: level, b: level, a: 255 }
    }

    /// Adds a fully opaque alpha channel to a 24-bit colour.
    pub fn from_color24(color: &Color24) -> (result: Color32)
        ensures
            result == (Color32 { r: color.r, g: color.g, b: color.b, a: 255 }),
    {
        Color32 { r: color.r, g: color.g, b: color.b, a: 255 }
    }
}

/// Unpacking a packed colour gives back its four channels, whatever their values.
pub proof fn lemma_unpack_pack(r: u8, g: u8, b: u8, a: u8)
    ensures
        unpack(pack(r, g, b, a)) == (r, g, b, a),
        Color32::unpacked((Color32 { r, g, b, a }).packed()) == (Color32 { r, g, b, a }),
{
    let value: u32 = pack(r, g, b, a);
    assert(value / 0x100_0000 == r && value / 0x1_0000 % 0x100 == g && value / 0x100 % 0x100 == b
        && value % 0x100 == a) by (bit_vector)
        requires
            value == r * 0x100_0000 + g * 0x1_0000 + b * 0x100 + a,
    ;
}

/// Packing the channels of an unpacked value gives back the value.
pub proof fn lemma_pack_unpack(value: u32)
    ensures
        pack(unpack(value).0, unpack(value).1, unpack(value).2, unpack(value).3) == value,
        Color32::unpacked(value).packed() == value,
{
    let r: u8 = (value / 0x100_0000) as u8;
    let g: u8 = (value / 0x1_0000 % 0x100) as u8;
    let b: u8 = (value / 0x100 % 0x100) as u8;
    let a: u8 = (value % 0x100) as u8;
    assert(value == r * 0x100_0000 + g * 0x1_0000 + b * 0x100 + a) by (bit_vector)
        requires
            r == value / 0x100_0000,
            g == value / 0x1_0000 % 0x100,
            b == value / 0x100 % 0x100,
            a == value % 0x100,
    ;
}

} // verus!
