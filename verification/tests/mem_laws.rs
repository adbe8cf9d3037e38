use wwwvm::mem::{Memory, HPET_BASE, LAPIC_BASE};

#[test]
fn a_write_changes_one_byte() {
    let mut m = Memory::new(16);
    m.write_u32(2, 0x0403_0201);
    assert_eq!(&m.as_slice()[..8], &[0, 0, 1, 2, 3, 4, 0, 0]);
    assert_eq!((m.read_u16(3), m.read_u32(1)), (0x0302, 0x0302_0100));
    m.write_u16(15, 0xFFFF);
    assert_eq!(m.as_slice()[15], 0xFF);
    assert_eq!(m.read_u8(16), 0);
}

#[test]
fn slices_are_cut_at_the_end() {
    let mut m = Memory::new(4);
    m.write_slice(2, &[1, 2, 3, 4]);
    assert_eq!(m.as_slice(), &[0, 0, 1, 2]);
    m.write_slice(9, &[5]);
    m.write_slice(u32::MAX, &[5]);
    assert_eq!(m.as_slice(), &[0, 0, 1, 2]);
    m.resize(6);
    assert_eq!((m.size(), m.as_slice()), (6, &[0u8, 0, 1, 2, 0, 0][..]));
    m.resize(1);
    assert_eq!(m.size(), 6);
}

#[test]
fn the_local_timer_fires_on_time() {
    let mut m = Memory::new(0);
    m.write_u32(LAPIC_BASE + 0x320, 0x0002_0033);
    m.write_u32(LAPIC_BASE + 0x380, 3);
    assert_eq!(m.read_u32(LAPIC_BASE + 0x390), 3, "writing the initial count starts it");
    m.tick_lapic_timer();
    m.tick_lapic_timer();
    assert_eq!(m.take_pending_lapic_irq(), None);
    m.tick_lapic_timer();
    assert_eq!(m.take_pending_lapic_irq(), Some(0x33));
    assert_eq!(m.take_pending_lapic_irq(), None);
    assert_eq!(m.read_u32(LAPIC_BASE + 0x390), 3, "periodic: reloaded");

    m.write_u32(LAPIC_BASE + 0x320, 0x0001_0033);
    m.write_u32(LAPIC_BASE + 0x380, 1);
    m.tick_lapic_timer();
    assert_eq!(m.take_pending_lapic_irq(), None, "masked");
    m.tick_lapic_timer();
    assert_eq!(m.read_u32(LAPIC_BASE + 0x390), 0, "one-shot: stays at zero");
}

#[test]
fn a_lost_tick_keeps_the_first_vector() {
    let mut m = Memory::new(0);
    m.write_u32(LAPIC_BASE + 0x320, 0x41);
    m.write_u32(LAPIC_BASE + 0x380, 1);
    m.tick_lapic_timer();
    m.write_u32(LAPIC_BASE + 0x320, 0x42);
    m.write_u32(LAPIC_BASE + 0x380, 1);
    m.tick_lapic_timer();
    assert_eq!(m.take_pending_lapic_irq(), Some(0x41));
}

#[test]
fn the_event_timer_counts_while_enabled() {
    let mut m = Memory::new(0);
    m.tick_hpet_counter();
    assert_eq!(m.read_u32(HPET_BASE + 0xF0), 0);
    m.write_u8(HPET_BASE + 0x10, 1);
    m.write_u32(HPET_BASE + 0xF0, u32::MAX);
    m.write_u32(HPET_BASE + 0x120, 1 << 2 | 1 << 14);
    m.write_u32(HPET_BASE + 0x12C, 1);
    m.write_u32(HPET_BASE + 0x130, 0x155);
    m.tick_hpet_counter();
    assert_eq!((m.read_u32(HPET_BASE + 0xF0), m.read_u32(HPET_BASE + 0xF4)), (0, 1));
    assert_eq!(m.take_pending_lapic_irq(), Some(0x55), "second comparator");
    m.tick_hpet_counter();
    assert_eq!(m.take_pending_lapic_irq(), None);
    m.write_u8(HPET_BASE + 0x10, 0);
    m.tick_hpet_counter();
    assert_eq!(m.read_u32(HPET_BASE + 0xF0), 1);
}

#[test]
fn windows_and_memory_are_restored_whole() {
    let mut m = Memory::new(4);
    assert_eq!(m.restore_full(&[1, 2, 3]), Err(4));
    assert_eq!(m.restore_full(&[1, 2, 3, 4]), Ok(()));
    assert_eq!(m.as_slice(), &[1, 2, 3, 4]);
    assert_eq!(m.restore_lapic(&[0; 10]), Err(0x1000));
    assert_eq!(m.restore_hpet(&[0; 10]), Err(0x400));
    assert_eq!((m.lapic_bytes()[0x30], m.hpet_bytes()[0]), (0x14, 0x01));
    assert_eq!(m.restore_lapic(&[7; 0x1000]), Ok(()));
    assert_eq!(m.restore_hpet(&[8; 0x400]), Ok(()));
    assert_eq!((m.read_u8(LAPIC_BASE + 5), m.read_u8(HPET_BASE + 5)), (7, 8));
}
