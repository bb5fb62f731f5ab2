use vstd::prelude::*;

verus! {

/// A pixel color packed as `0xAARRGGBB`: alpha in the highest byte, then red,
/// green and blue in the lowest byte.
pub type Color = u32;

/// The alpha channel of a packed color (its most significant byte).
pub open spec fn alpha_of(color: u32) -> u8 {
    (color / 0x0100_0000) as u8
}

/// The red channel of a packed color (its second byte from the top).
pub open spec fn red_of(color: u32) -> u8 {
    ((color / 0x0001_0000) % 0x100) as u8
}

/// The green channel of a packed color (its second byte from the bottom).
pub open spec fn green_of(color: u32) -> u8 {
    ((color / 0x100) % 0x100) as u8
}

/// The blue channel of a packed color (its least significant byte).
pub open spec fn blue_of(color: u32) -> u8 {
    (color % 0x100) as u8
}

/// The color whose channels, from the most significant byte down, are
/// `alpha`, `red`, `green` and `blue`.
pub open spec fn packed(alpha: u8, red: u8, green: u8, blue: u8) -> u32 {
    (alpha * 0x0100_0000int + red * 0x0001_0000int + green * 0x100int + blue) as u32
}

/// Returns the alpha channel of `color`.
pub fn get_alpha(color: Color) -> (a: u8)
    ensures
        a == alpha_of(color),
{
    assert(((0xFF000000u32 & color) >> 24u32) == color / 0x0100_0000u32) by (bit_vector);
    ((0xFF000000u32 & color) >> 24u32) as u8
}

/// Returns the red channel of `color`.
pub fn get_red(color: Color) -> (r: u8)
    ensures
        r == red_of(color),
{
    assert(((0x00FF0000u32 & color) >> 16u32) == (color / 0x0001_0000u32) % 0x100u32)
        by (bit_vector);
    ((0x00FF0000u32 & color) >> 16u32) as u8
}

/// Returns the green channel of `color`.
pub fn get_green(color: Color) -> (g: u8)
    ensures
        g == green_of(color),
{
    assert(((0x0000FF00u32 & color) >> 8u32) == (color / 0x100u32) % 0x100u32) by (bit_vector);
    ((0x0000FF00u32 & color) >> 8u32) as u8
}

/// Returns the blue channel of `color`.
pub fn get_blue(color: Color) -> (b: u8)
    ensures
        b == blue_of(color),
{
    assert((0x000000FFu32 & color) == color % 0x100u32) by (bit_vector);
    (0x000000FFu32 & color) as u8
}

/// Packs the four channels into one color, alpha in the most significant byte.
pub fn make_color(alpha: u8, red: u8, green: u8, blue: u8) -> (color: Color)
    ensures
        color == packed(alpha, red, green, blue),
{
    let a: u32 = alpha as u32;
    let r: u32 = red as u32;
    let g: u32 = green as u32;
    let b: u32 = blue as u32;
    assert((a << 24u32) | (r << 16u32) | (g << 8u32) | b
        == a * 0x0100_0000u32 + r * 0x0001_0000u32 + g * 0x100u32 + b) by (bit_vector)
        requires
            a < 0x100,
            r < 0x100,
            g < 0x100,
            b < 0x100,
    ;
    (a << 24u32) | (r << 16u32) | (g << 8u32) | b
}

/// Reading a channel back gives what was packed: each of the four getters,
/// applied to `make_color(alpha, red, green, blue)`, returns its own argument.
pub proof fn lemma_channels_of_packed(alpha: u8, red: u8, green: u8, blue: u8)
    ensures
        alpha_of(packed(alpha, red, green, blue)) == alpha,
        red_of(packed(alpha, red, green, blue)) == red,
        green_of(packed(alpha, red, green, blue)) == green,
        blue_of(packed(alpha, red, green, blue)) == blue,
{
    let a: u32 = alpha as u32;
    let r: u32 = red as u32;
    let g: u32 = green as u32;
    let b: u32 = blue as u32;
    let c: u32 = packed(alpha, red, green, blue);
    assert(c == a * 0x0100_0000u32 + r * 0x0001_0000u32 + g * 0x100u32 + b) by (nonlinear_arith)
        requires
            a < 0x100,
            r < 0x100,
            g < 0x100,
            b < 0x100,
            c == (a * 0x0100_0000int + r * 0x0001_0000int + g * 0x100int + b) as u32,
    ;
    assert(c / 0x0100_0000u32 == a && (c / 0x0001_0000u32) % 0x100u32 == r && (c / 0x100u32)
        % 0x100u32 == g && c % 0x100u32 == b) by (bit_vector)
        requires
            a < 0x100,
            r < 0x100,
            g < 0x100,
            b < 0x100,
            c == a * 0x0100_0000u32 + r * 0x0001_0000u32 + g * 0x100u32 + b,
    ;
}

/// Splitting a color into its channels loses nothing: packing the four
/// channels of `color` again gives back `color`.
pub proof fn lemma_packed_of_channels(color: u32)
    ensures
        packed(alpha_of(color), red_of(color), green_of(color), blue_of(color)) == color,
{
    let a: u32 = color / 0x0100_0000u32;
    let r: u32 = (color / 0x0001_0000u32) % 0x100u32;
    let g: u32 = (color / 0x100u32) % 0x100u32;
    let b: u32 = color % 0x100u32;
    assert(a * 0x0100_0000u32 + r * 0x0001_0000u32 + g * 0x100u32 + b == color && a < 0x100
        && r < 0x100 && g < 0x100 && b < 0x100) by (bit_vector)
        requires
            a == color / 0x0100_0000u32,
            r == (color / 0x0001_0000u32) % 0x100u32,
            g == (color / 0x100u32) % 0x100u32,
            b == color % 0x100u32,
    ;
}

} // verus!
