use aerugo::pac::{cidr0, itatbctr2, owdr, pidr3, pidr5, tmxbfr};
use aerugo::pin::{InputMode, OutputMode, Peripheral, Pin, PortRegisters, PullResistor, ResetMode};
use aerugo::watchdog::{Peripherals, Watchdog, WatchdogConfiguration, WatchdogRegisters, CR_RESTART, WDDIS, WDRSTEN};

fn registers() -> PortRegisters {
    PortRegisters { psr: 0, osr: 0, pdsr: 0, pusr: 0, ppdsr: 0, abcdsr0: 0, abcdsr1: 0 }
}

#[test]
fn owdr_bit_writers_set_and_clear_their_bit() {
    let mut w = owdr::W::new();
    w.p3().set_bit();
    assert_eq!(w.get_bits(), 0b1000);
    w.p31().bit(true);
    assert_eq!(w.get_bits(), 0x8000_0008);
    w.p3().clear_bit();
    assert_eq!(w.get_bits(), 0x8000_0000);
    w.p0().set_bit().p1().set_bit();
    assert_eq!(w.get_bits(), 0x8000_0003);
    w.bits(0x55);
    assert_eq!(w.get_bits(), 0x55);
    assert_eq!(owdr::RESET_VALUE, 0);
}

#[test]
fn register_readers_hand_back_what_was_read() {
    assert_eq!(cidr0::R::reset().bits(), 0x0d);
    assert_eq!(pidr3::R::reset().bits(), 0);
    assert_eq!(pidr5::R::from_bits(9).bits(), 9);
    assert_eq!(itatbctr2::R::from_bits(1).bits(), 1);
    assert_eq!(tmxbfr::R::from_bits(1234).nfrx(), 1234);
}

#[test]
fn pin_reads_its_own_bits() {
    let regs = PortRegisters { psr: 1 << 12, osr: 1 << 12, pdsr: 1 << 12, ..registers() };
    let pin: Pin<ResetMode> = Pin::new(regs, 'C', 12);
    assert_eq!(pin.id(), 12);
    assert_eq!(pin.port_id(), 'C');
    assert!(pin.state());
    assert!(pin.is_pio_controlled());
    assert!(!pin.is_peripheral_controlled());
    assert!(pin.is_output());
    assert!(!pin.is_input());
    assert_eq!(pin.pin_mask(), 1 << 12);
    let other: Pin<ResetMode> = Pin::new(regs, 'C', 11);
    assert!(!other.state());
    assert!(other.is_peripheral_controlled());
}

#[test]
fn pin_pull_resistor_round_trip() {
    let mut pin: Pin<ResetMode> = Pin::new(PortRegisters { pusr: 1 << 2, ..registers() }, 'A', 5);
    assert_eq!(pin.pull_resistor(), PullResistor::Disabled);
    pin.set_pull_resistor(PullResistor::Up);
    assert_eq!(pin.pull_resistor(), PullResistor::Up);
    assert!(pin.is_pulled_up());
    pin.set_pull_resistor(PullResistor::Down);
    assert_eq!(pin.pull_resistor(), PullResistor::Down);
    assert!(!pin.is_pulled_up());
    assert!(pin.is_pulled_down());
    pin.set_pull_resistor(PullResistor::Disabled);
    assert_eq!(pin.pull_resistor(), PullResistor::Disabled);
    assert_eq!(pin.registers().pusr, 1 << 2);
}

#[test]
fn pin_changes_mode() {
    let pin: Pin<ResetMode> = Pin::new(registers(), 'D', 18);
    let input: Pin<InputMode> = pin.into_input_pin();
    assert!(input.is_input());
    let output: Pin<OutputMode> = input.into_output_pin();
    assert!(output.is_output());
    let periph = output.into_peripheral_pin(Peripheral::C);
    assert!(periph.is_peripheral_controlled());
    assert_eq!(periph.registers().abcdsr0, 0);
    assert_eq!(periph.registers().abcdsr1, 1 << 18);
    let periph = periph.into_peripheral_pin(Peripheral::D);
    assert_eq!(periph.registers().abcdsr0, 1 << 18);
    assert_eq!(periph.registers().abcdsr1, 1 << 18);
    let periph = periph.into_peripheral_pin(Peripheral::B);
    assert_eq!(periph.registers().abcdsr0, 1 << 18);
    assert_eq!(periph.registers().abcdsr1, 0);
}

#[test]
fn watchdog_is_configured_once() {
    let mut wd = Watchdog::new(WatchdogRegisters { mr: 0x0fff, cr: 0 });
    wd.configure(WatchdogConfiguration { enabled: true, reset_enabled: true, counter: 5000 });
    assert_eq!(wd.registers().mr, WDRSTEN | 0x0fff);
    assert!(wd.is_configured());
    wd.configure(WatchdogConfiguration { enabled: true, reset_enabled: false, counter: 10 });
    assert_eq!(wd.registers().mr, WDRSTEN | 0x0fff);
    wd.disable();
    assert_eq!(wd.registers().mr & WDDIS, 0);
    wd.feed();
    assert_eq!(wd.registers().cr, CR_RESTART);
}

#[test]
fn watchdog_counter_and_disable() {
    let mut wd = Watchdog::new(WatchdogRegisters { mr: 0x0fff, cr: 0 });
    wd.configure(WatchdogConfiguration { enabled: true, reset_enabled: false, counter: 100 });
    assert_eq!(wd.registers().mr, 100);
    let mut p = Peripherals::new(WatchdogRegisters { mr: 0, cr: 0 });
    p.watchdog.configure(WatchdogConfiguration { enabled: false, reset_enabled: false, counter: 1 });
    assert_eq!(p.watchdog.registers().mr, WDDIS);
    assert!(p.watchdog.is_configured());
}
