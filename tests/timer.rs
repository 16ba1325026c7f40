use rustyboy::mmu::Mmu;
use rustyboy::timer::Timer;

#[test]
fn tima_counts_periods() {
    for (tac, d) in [(0x05u8, 16isize), (0x06, 64), (0x07, 256), (0x04, 1024)] {
        let mut t = Timer::new();
        t.tac = tac;
        assert!(!t.tick(10 * d + d / 2));
        assert_eq!(t.tima, 10);
        assert_eq!(t.div as isize, 10 * d + d / 2);
    }
}

#[test]
fn tima_overflow_reloads_and_interrupts() {
    let mut t = Timer::new();
    t.tac = 0x05;
    t.tima = 0xfe;
    t.tma = 0x40;
    assert!(t.tick(32));
    assert_eq!(t.tima, 0x40);
}

#[test]
fn disabled_timer_only_counts_divider() {
    let mut t = Timer::new();
    t.tac = 0x01;
    assert!(!t.tick(70000));
    assert_eq!(t.tima, 0);
    assert_eq!(t.div as u32, 70000 - 65536);
}

#[test]
fn mmu_tick_raises_timer_interrupt() {
    let mut mmu = Mmu::new();
    mmu.write(0xff0f, 0x00);
    mmu.write(0xff07, 0x05);
    mmu.write(0xff05, 0xff);
    mmu.write(0xff06, 0x10);
    mmu.tick(16);
    assert_eq!(mmu.read(0xff0f) & 0x04, 0x04);
    assert_eq!(mmu.read(0xff05), 0x10);
    mmu.write(0xff04, 0x12);
    assert_eq!(mmu.read(0xff04), 0);
}
