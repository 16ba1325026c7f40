//! The framebuffer the pixel unit draws into, held in an RGBA
//! `image::ImageBuffer`.
use vstd::prelude::*;

verus! {

/// An RGBA colour.
pub type Rgba8 = (u8, u8, u8, u8);

/// A framebuffer: an RGBA image buffer that the host presents.
#[verifier::external_body]
pub struct Lcd {
    pub image: image::ImageBuffer<image::Rgba<u8>, Vec<u8>>,
}

/// The pixels of a framebuffer, by `(x, y)`.
pub uninterp spec fn lcd_pixels(lcd: Lcd) -> Map<(u32, u32), Rgba8>;

/// The width of a framebuffer.
pub uninterp spec fn lcd_width(lcd: Lcd) -> u32;

/// The height of a framebuffer.
pub uninterp spec fn lcd_height(lcd: Lcd) -> u32;

/// Relies on `ImageBuffer::width`, which returns the width the buffer was made with.
#[verifier::external_body]
pub(crate) fn width_of(lcd: &Lcd) -> (r: u32)
    ensures
        r == lcd_width(*lcd),
{
    lcd.image.width()
}

/// Relies on `ImageBuffer::height`, which returns the height the buffer was made with.
#[verifier::external_body]
pub(crate) fn height_of(lcd: &Lcd) -> (r: u32)
    ensures
        r == lcd_height(*lcd),
{
    lcd.image.height()
}

/// Relies on `ImageBuffer::put_pixel`: it replaces the pixel at `(x, y)` and
/// no other, keeps the size, and panics outside the buffer.
#[verifier::external_body]
pub(crate) fn put_pixel(lcd: &mut Lcd, x: u32, y: u32, color: Rgba8)
    requires
        x < lcd_width(*old(lcd)),
        y < lcd_height(*old(lcd)),
    ensures
        lcd_width(*final(lcd)) == lcd_width(*old(lcd)),
        lcd_height(*final(lcd)) == lcd_height(*old(lcd)),
        lcd_pixels(*final(lcd)) == lcd_pixels(*old(lcd)).insert((x, y), color),
{
    lcd.image.put_pixel(x, y, image::Rgba([color.0, color.1, color.2, color.3]))
}

} // verus!
