use vstd::prelude::*;

verus! {

/// Largest packed 24-bit colour word.
pub const WHITE: u32 = 0xFFFFFF;

/// A colour packed into one word as `0x00RRGGBB`.
#[derive(Clone, Copy, PartialEq, Eq, Debug, Structural)]
pub struct BufColor(pub u32);

/// A colour as its red, green and blue components.
#[derive(Clone, Copy, PartialEq, Eq, Debug)]
pub struct RgbColor(pub [u8; 3]);

/// The packed word of three components.
pub open spec fn pack(r: u8, g: u8, b: u8) -> u32 {
    (r as u32) << 16u32 | (g as u32) << 8u32 | (b as u32)
}

/// Component `shift` (16 red, 8 green, 0 blue) of a packed word.
pub open spec fn component(c: u32, shift: u32) -> u8 {
    ((c >> shift) & 0xFFu32) as u8
}

/// The packed colour of a component triple.
pub open spec fn packed_of(rgb: RgbColor) -> BufColor {
    BufColor(pack(rgb.0[0], rgb.0[1], rgb.0[2]))
}

/// The component triple of a packed colour.
pub open spec fn rgb_of(color: BufColor) -> RgbColor {
    RgbColor([component(color.0, 16), component(color.0, 8), component(color.0, 0)])
}

/// Whether a packed word uses only its low 24 bits.
pub open spec fn is_rgb_word(c: u32) -> bool {
    c <= WHITE
}

/// The inverse of a colour on 24 bits.
pub open spec fn invert(c: u32) -> u32 {
    c ^ WHITE
}

impl From<RgbColor> for BufColor {
    fn from(rgb: RgbColor) -> (r: BufColor)
        ensures
            r.0 == pack(rgb.0[0], rgb.0[1], rgb.0[2]),
    {
        let (r, g, b) = (rgb.0[0] as u32, rgb.0[1] as u32, rgb.0[2] as u32);
        BufColor((r << 16u32) | (g << 8u32) | b)
    }
}

impl vstd::std_specs::convert::FromSpecImpl<RgbColor> for BufColor {
    open spec fn obeys_from_spec() -> bool {
        true
    }

    open spec fn from_spec(rgb: RgbColor) -> BufColor {
        packed_of(rgb)
    }
}

impl From<BufColor> for RgbColor {
    fn from(color: BufColor) -> (r: RgbColor)
        ensures
            r.0[0] == component(color.0, 16),
            r.0[1] == component(color.0, 8),
            r.0[2] == component(color.0, 0),
    {
        let c = color.0;
        let r = ((c >> 16u32) & 0xFFu32) as u8;
        let g = ((c >> 8u32) & 0xFFu32) as u8;
        let b = ((c >> 0u32) & 0xFFu32) as u8;
        RgbColor([r, g, b])
    }
}

impl vstd::std_specs::convert::FromSpecImpl<BufColor> for RgbColor {
    open spec fn obeys_from_spec() -> bool {
        true
    }

    open spec fn from_spec(color: BufColor) -> RgbColor {
        rgb_of(color)
    }
}

/// Packing three components gives a 24-bit word whose components are the
/// three that went in.
pub proof fn lemma_pack_unpack(r: u8, g: u8, b: u8)
    ensures
        is_rgb_word(pack(r, g, b)),
        component(pack(r, g, b), 16) == r,
        component(pack(r, g, b), 8) == g,
        component(pack(r, g, b), 0) == b,
{
    let (r32, g32, b32) = (r as u32, g as u32, b as u32);
    assert(r32 <= 0xFF && g32 <= 0xFF && b32 <= 0xFF);
    assert(((r32 << 16u32) | (g32 << 8u32) | b32) <= 0xFFFFFFu32) by (bit_vector)
        requires r32 <= 0xFF && g32 <= 0xFF && b32 <= 0xFF;
    assert((((r32 << 16u32) | (g32 << 8u32) | b32) >> 16u32) & 0xFFu32 == r32) by (bit_vector)
        requires r32 <= 0xFF && g32 <= 0xFF && b32 <= 0xFF;
    assert((((r32 << 16u32) | (g32 << 8u32) | b32) >> 8u32) & 0xFFu32 == g32) by (bit_vector)
        requires r32 <= 0xFF && g32 <= 0xFF && b32 <= 0xFF;
    assert((((r32 << 16u32) | (g32 << 8u32) | b32) >> 0u32) & 0xFFu32 == b32) by (bit_vector)
        requires r32 <= 0xFF && g32 <= 0xFF && b32 <= 0xFF;
}

/// Splitting a 24-bit word into components and packing them again gives the
/// same word.
pub proof fn lemma_unpack_pack(c: u32)
    requires
        is_rgb_word(c),
    ensures
        pack(component(c, 16), component(c, 8), component(c, 0)) == c,
{
    assert((((((c >> 16u32) & 0xFFu32) as u8) as u32) << 16u32 | ((((c >> 8u32) & 0xFFu32) as u8)
        as u32) << 8u32 | ((((c >> 0u32) & 0xFFu32) as u8) as u32)) == c) by (bit_vector)
        requires c <= 0xFFFFFFu32;
}

/// Converting a component triple to a packed colour and back gives the
/// triple again, and converting a 24-bit packed colour to components and
/// back gives the packed colour again.
pub proof fn lemma_color_round_trip(rgb: RgbColor, c: BufColor)
    requires
        is_rgb_word(c.0),
    ensures
        rgb_of(packed_of(rgb)) == rgb,
        packed_of(rgb_of(c)) == c,
{
    lemma_pack_unpack(rgb.0[0], rgb.0[1], rgb.0[2]);
    let back = rgb_of(packed_of(rgb));
    assert(back.0 =~= rgb.0);
    lemma_unpack_pack(c.0);
}

/// Inverting a colour twice gives it back.
pub proof fn lemma_invert_twice(c: u32)
    ensures
        invert(invert(c)) == c,
{
    assert((c ^ 0xFFFFFFu32) ^ 0xFFFFFFu32 == c) by (bit_vector);
}

/// On a 24-bit word inversion is subtraction from white.
pub proof fn lemma_invert_is_complement(c: u32)
    requires
        is_rgb_word(c),
    ensures
        invert(c) == WHITE - c,
{
    assert(c ^ 0xFFFFFFu32 == 0xFFFFFFu32 - c) by (bit_vector)
        requires c <= 0xFFFFFFu32;
}

} // verus!
