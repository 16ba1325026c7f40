use rustyboy::lcd::Lcd;
use rustyboy::mmu::Mmu;
use rustyboy::ppu::{Ppu, MODE_DRAWING, MODE_OAM_SEARCH, MODE_VBLANK};

fn lcd() -> Lcd {
    Lcd { image: image::ImageBuffer::from_pixel(160, 144, image::Rgba([0u8; 4])) }
}

#[test]
fn starts_in_vblank_and_wraps_to_line_zero() {
    let mut mmu = Mmu::new();
    let mut screen = lcd();
    let mut ppu = Ppu::new();
    assert_eq!(ppu.mode, MODE_VBLANK);
    ppu.run_for(&mut mmu, &mut screen, 456);
    assert_eq!(mmu.read(0xff44), 0);
    assert_eq!(ppu.mode, MODE_OAM_SEARCH);
    assert_eq!(mmu.read(0xff41) & 0x03, MODE_OAM_SEARCH);
    ppu.run_for(&mut mmu, &mut screen, 100);
    assert_eq!(ppu.mode, MODE_DRAWING);
    assert_eq!(ppu.x, 20);
}

#[test]
fn frame_draws_lines_and_raises_vblank_once() {
    let mut mmu = Mmu::new();
    let mut screen = lcd();
    let mut ppu = Ppu::new();
    ppu.run_for(&mut mmu, &mut screen, 456);
    mmu.write(0xff0f, 0x00);
    for _ in 0..143 {
        ppu.run_for(&mut mmu, &mut screen, 456);
        assert_eq!(mmu.read(0xff0f) & 1, 0);
    }
    assert_eq!(mmu.read(0xff44), 143);
    ppu.run_for(&mut mmu, &mut screen, 456);
    assert_eq!(mmu.read(0xff44), 144);
    assert_eq!(ppu.mode, MODE_VBLANK);
    assert_eq!(mmu.read(0xff0f) & 1, 1);
    assert_eq!(*screen.image.get_pixel(0, 0), image::Rgba([53, 61, 52, 255]));
    assert_eq!(*screen.image.get_pixel(159, 143), image::Rgba([53, 61, 52, 255]));
    mmu.write(0xff0f, 0x00);
    for _ in 0..10 {
        ppu.run_for(&mut mmu, &mut screen, 456);
    }
    assert_eq!(mmu.read(0xff44), 0);
    assert_eq!(mmu.read(0xff0f) & 1, 0);
}

#[test]
fn background_pixels_follow_tiles_and_palette() {
    let mut mmu = Mmu::new();
    for a in 0x8000u16..0xa000 {
        mmu.write(a, 0);
    }
    mmu.write(0xff40, 0x91);
    mmu.write(0xff42, 0);
    mmu.write(0xff43, 0);
    mmu.write(0xff47, 0xe4);
    mmu.write(0x9800, 1);
    mmu.write(0x8010, 0x80);
    mmu.write(0x8011, 0x80);
    let mut screen = lcd();
    let mut ppu = Ppu::new();
    ppu.run_for(&mut mmu, &mut screen, 456 + 80 + 160);
    assert_eq!(*screen.image.get_pixel(0, 0), image::Rgba([53, 61, 52, 255]));
    assert_eq!(*screen.image.get_pixel(1, 0), image::Rgba([198, 227, 195, 255]));
}

#[test]
fn stat_keeps_its_upper_bits() {
    let mut mmu = Mmu::new();
    mmu.write(0xff41, 0x44);
    let mut screen = lcd();
    let mut ppu = Ppu::new();
    ppu.run_for(&mut mmu, &mut screen, 456 + 100);
    assert_eq!(mmu.read(0xff41), 0x44 | MODE_DRAWING);
    assert_eq!(mmu.read(0xff44), 0);
}
