use vstd::prelude::*;
use crate::input::ButtonMode;

verus! {

// How a tile looks: the colour of its box and the size of the font of its number, both
// chosen by the number that the tile shows; and the colour of a button's border.

/// A colour: its alpha, red, green and blue channels.
#[derive(Copy, Clone, Debug, PartialEq, Eq, Structural)]
pub struct Color {
    pub a: u8,
    pub r: u8,
    pub g: u8,
    pub b: u8,
}

/// The opaque colour with the given red, green and blue channels.
pub open spec fn opaque(r: u8, g: u8, b: u8) -> Color {
    Color { a: 255, r, g, b }
}

/// The colour of the box of a tile that shows the number `n`: gray for 1, a shade of
/// its own for each power of two from 2 to 2048 (8 and 16 share one, as do 32 and 64),
/// and a dark gray for every other number.
pub open spec fn spec_tile_color(n: u32) -> Color {
    if n == 1 {
        opaque(128, 128, 128)
    } else if n == 2 {
        opaque(238, 228, 218)
    } else if n == 4 {
        opaque(237, 224, 200)
    } else if n == 8 || n == 16 {
        opaque(242, 177, 121)
    } else if n == 32 || n == 64 {
        opaque(246, 124, 95)
    } else if n == 128 {
        opaque(237, 207, 114)
    } else if n == 256 {
        opaque(237, 207, 97)
    } else if n == 512 {
        opaque(237, 200, 80)
    } else if n == 1024 {
        opaque(237, 197, 63)
    } else if n == 2048 {
        opaque(237, 194, 46)
    } else {
        opaque(60, 58, 60)
    }
}

/// The colour of the box of a tile that shows the number `n`.
pub fn get_tile_color(n: u32) -> (c: Color)
    ensures
        c == spec_tile_color(n),
{
    let (r, g, b): (u8, u8, u8) = match n {
        1 => (128, 128, 128),
        2 => (238, 228, 218),
        4 => (237, 224, 200),
        8 | 16 => (242, 177, 121),
        32 | 64 => (246, 124, 95),
        128 => (237, 207, 114),
        256 => (237, 207, 97),
        512 => (237, 200, 80),
        1024 => (237, 197, 63),
        2048 => (237, 194, 46),
        _ => (60, 58, 60),
    };
    Color { a: 255, r, g, b }
}

/// The size of the font of the number `n` on a tile, in points.
pub open spec fn spec_font_size(n: u32) -> u32 {
    if n < 1000 {
        256
    } else if n < 10000 {
        180
    } else if n < 100000 {
        150
    } else {
        120
    }
}

/// The size of the font of the number `n` on a tile, in points: the more digits the
/// number has, the smaller the font (below 1000, below 10000, below 100000, and above).
pub fn get_tile_font_size(n: u32) -> (s: u32)
    ensures
        s == spec_font_size(n),
{
    if n < 1000 {
        256
    } else if n < 10000 {
        180
    } else if n < 100000 {
        150
    } else {
        120
    }
}

/// The colour of the border of a button: black when it has the focus, white otherwise.
pub fn get_button_border_color(mode: ButtonMode) -> (c: Color)
    ensures
        c == if mode == ButtonMode::Focused {
            opaque(0, 0, 0)
        } else {
            opaque(255, 255, 255)
        },
{
    match mode {
        ButtonMode::Focused => Color { a: 255, r: 0, g: 0, b: 0 },
        ButtonMode::Norm | ButtonMode::Disabled => Color { a: 255, r: 255, g: 255, b: 255 },
    }
}

/// The colours of the tiles, as a table: each power of two from 2 to 2048 has its own
/// colour (8 and 16 share one, as do 32 and 64), none of them the dark gray that every
/// other number gets, and 1 is gray.
pub proof fn law_tile_colors()
    ensures
        spec_tile_color(1) == (Color { a: 255, r: 128, g: 128, b: 128 }),
        spec_tile_color(2) == (Color { a: 255, r: 238, g: 228, b: 218 }),
        spec_tile_color(4) == (Color { a: 255, r: 237, g: 224, b: 200 }),
        spec_tile_color(8) == (Color { a: 255, r: 242, g: 177, b: 121 }),
        spec_tile_color(16) == (Color { a: 255, r: 242, g: 177, b: 121 }),
        spec_tile_color(32) == (Color { a: 255, r: 246, g: 124, b: 95 }),
        spec_tile_color(64) == (Color { a: 255, r: 246, g: 124, b: 95 }),
        spec_tile_color(128) == (Color { a: 255, r: 237, g: 207, b: 114 }),
        spec_tile_color(256) == (Color { a: 255, r: 237, g: 207, b: 97 }),
        spec_tile_color(512) == (Color { a: 255, r: 237, g: 200, b: 80 }),
        spec_tile_color(1024) == (Color { a: 255, r: 237, g: 197, b: 63 }),
        spec_tile_color(2048) == (Color { a: 255, r: 237, g: 194, b: 46 }),
        forall|n: u32|
            n != 1 && n != 2 && n != 4 && n != 8 && n != 16 && n != 32 && n != 64 && n != 128
                && n != 256 && n != 512 && n != 1024 && n != 2048 ==> #[trigger] spec_tile_color(n)
                == (Color { a: 255, r: 60, g: 58, b: 60 }),
        forall|k: nat|
            1 <= k <= 11 ==> #[trigger] spec_tile_color(vstd::arithmetic::power2::pow2(k) as u32)
                != (Color { a: 255, r: 60, g: 58, b: 60 }),
{
    vstd::arithmetic::power2::lemma2_to64();
    assert forall|k: nat|
        1 <= k <= 11 implies #[trigger] spec_tile_color(vstd::arithmetic::power2::pow2(k) as u32)
            != (Color { a: 255, r: 60, g: 58, b: 60 }) by {
        vstd::arithmetic::power2::lemma2_to64();
    }
}

/// The size of the font of a tile's number, in points: 256 below 1000, 180 below 10000,
/// 150 below 100000, 120 for every larger number.
pub proof fn law_tile_font_sizes()
    ensures
        forall|n: u32| n < 1000 ==> #[trigger] spec_font_size(n) == 256,
        forall|n: u32| 1000 <= n < 10000 ==> #[trigger] spec_font_size(n) == 180,
        forall|n: u32| 10000 <= n < 100000 ==> #[trigger] spec_font_size(n) == 150,
        forall|n: u32| 100000 <= n ==> #[trigger] spec_font_size(n) == 120,
{
}

} // verus!
