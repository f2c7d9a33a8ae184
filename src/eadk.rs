//! Plain value types of the device interface: colors, rectangles, points and
//! keyboard snapshots.

use vstd::prelude::*;

verus! {

/// Width (in pixels) of the screen.
pub const SCREEN_WIDTH: u16 = 320;

/// Height (in pixels) of the screen.
pub const SCREEN_HEIGHT: u16 = 240;

/// The rgb565 value of an rgb888 triple: 5 bits of red, 6 of green, 5 of blue.
pub open spec fn rgb565_of(r: u8, g: u8, b: u8) -> int {
    (r as int / 8) * 2048 + (g as int / 4) * 32 + b as int / 8
}

/// A color, encoded as rgb565.
#[derive(Clone, Copy, Debug, PartialEq, Eq, Structural)]
pub struct Color {
    pub rgb565: u16,
}

impl Color {
    /// A color from its rgb565 encoding.
    pub fn new(rgb565: u16) -> (r: Color)
        ensures
            r.rgb565 == rgb565,
    {
        Color { rgb565 }
    }

    /// A color from an rgb888 triple, dropping the low bits of each channel.
    pub fn from_rgb888(r: u8, g: u8, b: u8) -> (c: Color)
        ensures
            c.rgb565 == rgb565_of(r, g, b),
    {
        let v: u16 = ((r as u16 & 0xf8u16) << 8u16) | ((g as u16 & 0xfcu16) << 3u16) | ((b as u16) >> 3u16);
        proof {
            let (r16, g16, b16) = (r as u16, g as u16, b as u16);
            assert(r16 < 256 && g16 < 256 && b16 < 256);
            assert(((r16 & 0xf8u16) << 8u16) | ((g16 & 0xfcu16) << 3u16) | (b16 >> 3u16)
                == (r16 / 8) * 2048 + (g16 / 4) * 32 + b16 / 8) by (bit_vector)
                requires
                    r16 < 256,
                    g16 < 256,
                    b16 < 256,
            ;
        }
        Color { rgb565: v }
    }

    /// Black.
    pub fn black() -> (c: Color)
        ensures
            c.rgb565 == rgb565_of(0, 0, 0),
    {
        Color::from_rgb888(0, 0, 0)
    }

    /// White.
    pub fn white() -> (c: Color)
        ensures
            c.rgb565 == rgb565_of(255, 255, 255),
    {
        Color::from_rgb888(255, 255, 255)
    }

    /// Green.
    pub fn green() -> (c: Color)
        ensures
            c.rgb565 == rgb565_of(0, 255, 0),
    {
        Color::from_rgb888(0, 255, 0)
    }

    /// Blue.
    pub fn blue() -> (c: Color)
        ensures
            c.rgb565 == rgb565_of(0, 0, 255),
    {
        Color::from_rgb888(0, 0, 255)
    }

    /// Red.
    pub fn red() -> (c: Color)
        ensures
            c.rgb565 == rgb565_of(255, 0, 0),
    {
        Color::from_rgb888(255, 0, 0)
    }
}

/// A rectangle on the screen.
#[derive(Clone, Copy, Debug, PartialEq, Eq, Structural)]
pub struct Rect {
    pub x: u16,
    pub y: u16,
    pub width: u16,
    pub height: u16,
}

impl Rect {
    /// A rectangle from its top left corner and its size.
    pub fn new(x: u16, y: u16, width: u16, height: u16) -> (r: Rect)
        ensures
            r.x == x,
            r.y == y,
            r.width == width,
            r.height == height,
    {
        Rect { x, y, width, height }
    }

    /// The whole screen.
    pub fn screen() -> (r: Rect)
        ensures
            r.x == 0,
            r.y == 0,
            r.width == SCREEN_WIDTH,
            r.height == SCREEN_HEIGHT,
    {
        Rect::new(0, 0, SCREEN_WIDTH, SCREEN_HEIGHT)
    }
}

/// A point on the screen.
#[derive(Clone, Copy, Debug, PartialEq, Eq, Structural)]
pub struct Point {
    pub x: u16,
    pub y: u16,
}

impl Point {
    /// A point from its coordinates.
    pub fn new(x: u16, y: u16) -> (p: Point)
        ensures
            p.x == x,
            p.y == y,
    {
        Point { x, y }
    }

    /// The top left corner of the screen.
    pub fn zero() -> (p: Point)
        ensures
            p.x == 0,
            p.y == 0,
    {
        Point::new(0, 0)
    }
}

/// Whether key `k` is down in the keyboard bitmask `bits`: bit `k`, with the
/// key number taken modulo the width of the mask.
pub open spec fn key_bit(bits: u64, k: u32) -> bool {
    (bits >> ((k % 64) as u64)) & 1u64 == 1u64
}

/// A snapshot of the keyboard: one bit per key.
#[derive(Clone, Copy, Debug, PartialEq, Eq, Structural)]
pub struct State(pub u64);

impl State {
    /// A snapshot from the raw bitmask read from the keyboard.
    pub fn new(state: u64) -> (s: State)
        ensures
            s.0 == state,
    {
        State(state)
    }

    /// Whether key `k` (one of the constants of `key`) is down.
    pub fn key_down(&self, k: u32) -> (r: bool)
        ensures
            r == key_bit(self.0, k),
    {
        let shift: u64 = (k % 64) as u64;
        let v: u64 = self.0 >> shift;
        assert((v & 1u64 != 0) == (v & 1u64 == 1u64)) by (bit_vector);
        v & 1u64 != 0
    }
}

} // verus!
