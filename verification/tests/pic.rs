use wwwvm::pic::Pic;
use wwwvm::IoDevice;


/// OCW3 with bits 1:0 = 11 switches the command-port read to
/// return ISR. Linux uses this to detect spurious IRQ 7 / 15
/// — if the handler fires but the matching ISR bit is clear,
/// the IRQ was spurious and the handler should bail without
/// sending EOI.
#[test]
fn ocw3_isr_select_switches_command_port_read() {
    let mut pic = Pic::master();
    pic.imr = 0;
    pic.raise_irq(5);
    pic.ack();
    // ISR bit 5 set; IRR is now clear.
    assert_eq!(pic.isr, 1 << 5);
    assert_eq!(pic.irr, 0);

    // Default read returns IRR (= 0).
    assert_eq!(pic.read(0x20), 0);

    // Write OCW3 with bits 1:0 = 11 → switch to ISR.
    // OCW3 layout: 0b0_xx_01_xx_b → bit 3 set, bit 4 clear.
    pic.write(0x20, 0b0000_1011);
    assert_eq!(pic.read(0x20), 1 << 5, "ISR readable via OCW3");

    // Switch back to IRR with bits 1:0 = 10.
    pic.write(0x20, 0b0000_1010);
    assert_eq!(pic.read(0x20), 0, "IRR readable after switch back");
}

#[test]
fn masked_irq_does_not_become_pending() {
    let mut pic = Pic::master();
    pic.raise_irq(3);
    assert!(pic.pending_vector().is_none());
    pic.write(0x21, 0xF7);
    assert_eq!(pic.pending_vector(), Some(0x08 + 3));
}

#[test]
fn ack_moves_request_to_in_service() {
    let mut pic = Pic::master();
    pic.imr = 0;
    pic.raise_irq(2);
    assert_eq!(pic.pending_vector(), Some(0x08 + 2));
    pic.ack();
    assert_eq!(pic.isr, 1 << 2);
    assert_eq!(pic.irr, 0);
    assert!(pic.pending_vector().is_none());
}

#[test]
fn eoi_clears_isr_top_bit() {
    let mut pic = Pic::master();
    pic.imr = 0;
    pic.raise_irq(1);
    pic.ack();
    assert!(pic.isr != 0);
    pic.write(0x20, 0x20);
    assert_eq!(pic.isr, 0);
}

/// Specific EOI (OCW2 = 0x60 | irq) clears the named bit even
/// when it's not the highest-priority pending one. Non-specific
/// EOI by contrast would clear bit 3 (the higher-priority IRQ)
/// — leaving the IRQ-5 handler with no way to acknowledge.
#[test]
fn specific_eoi_clears_named_irq_bit_only() {
    let mut pic = Pic::master();
    pic.imr = 0;
    pic.raise_irq(3);
    pic.ack();
    pic.raise_irq(5);
    pic.ack();
    // Both IRQ-3 and IRQ-5 are in-service. Non-specific would
    // clear IRQ-3 (lowest bit). Specific-EOI for IRQ-5 clears
    // exactly bit 5.
    assert_eq!(pic.isr, (1 << 3) | (1 << 5));
    pic.write(0x20, 0x60 | 5);
    assert_eq!(pic.isr, 1 << 3, "only IRQ-5 cleared");
    pic.write(0x20, 0x60 | 3);
    assert_eq!(pic.isr, 0);
}

/// Rotate-on-specific-EOI (OCW2 = 0xE0 | irq) still EOIs the
/// named bit — we don't model the rotation hint, but the EOI
/// half of the operation must take effect.
#[test]
fn rotate_specific_eoi_still_clears_named_bit() {
    let mut pic = Pic::master();
    pic.imr = 0;
    pic.raise_irq(2);
    pic.ack();
    assert_eq!(pic.isr, 1 << 2);
    pic.write(0x20, 0xE0 | 2);
    assert_eq!(pic.isr, 0);
}

#[test]
fn icw_sequence_sets_vector_base() {
    let mut pic = Pic::master();
    // Standard PC remap to vector 0x30..0x37
    pic.write(0x20, 0x11);
    pic.write(0x21, 0x30);
    pic.write(0x21, 0x04);
    pic.write(0x21, 0x01);
    assert_eq!(pic.vector_base, 0x30);
    pic.write(0x21, 0xFE);
    assert_eq!(pic.imr, 0xFE);
}

#[test]
fn higher_priority_irq_wins() {
    let mut pic = Pic::master();
    pic.imr = 0;
    pic.raise_irq(7);
    pic.raise_irq(0);
    assert_eq!(pic.pending_vector(), Some(0x08));
}
