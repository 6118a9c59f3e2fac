//! A generic I/O pin of a Parallel I/O (PIO) controller.
//!
//! The pin works on its port's registers, held here as plain values: each
//! register has one bit per pin, and the pin reads and writes only its own.
use vstd::prelude::*;
use core::marker::PhantomData;

verus! {

/// A pin's mode, kept in its type.
pub trait PinMode {}

/// Mode after reset: unknown.
pub struct ResetMode;

/// Input, controlled by the PIO controller.
pub struct InputMode;

/// Output, controlled by the PIO controller.
pub struct OutputMode;

/// Controlled by a peripheral.
pub struct PeripheralMode;

impl PinMode for ResetMode {}

impl PinMode for InputMode {}

impl PinMode for OutputMode {}

impl PinMode for PeripheralMode {}

/// Pull resistor configuration of a pin.
#[derive(Clone, Copy, Debug, PartialEq, Eq, Structural)]
pub enum PullResistor {
    /// Neither pull-up nor pull-down is enabled.
    Disabled,
    /// Pull-up is enabled.
    Up,
    /// Pull-down is enabled.
    Down,
}

/// Peripheral that can control a pin.
#[derive(Clone, Copy, Debug, PartialEq, Eq, Structural)]
pub enum Peripheral {
    /// Peripheral A.
    A,
    /// Peripheral B.
    B,
    /// Peripheral C.
    C,
    /// Peripheral D.
    D,
}

/// The registers of a PIO port that pins use, one bit per pin.
#[derive(Clone, Copy, Debug, PartialEq, Eq, Structural)]
pub struct PortRegisters {
    /// PIO status: set when the PIO controller drives the pin.
    pub psr: u32,
    /// Output status: set when the pin is an output.
    pub osr: u32,
    /// Pin data status: the level on the line.
    pub pdsr: u32,
    /// Pull-up status: set when the pull-up is enabled.
    pub pusr: u32,
    /// Pull-down status: set when the pull-down is enabled.
    pub ppdsr: u32,
    /// Peripheral select, first bit.
    pub abcdsr0: u32,
    /// Peripheral select, second bit.
    pub abcdsr1: u32,
}

/// Whether bit `id` of `reg` is set.
pub open spec fn bit_of(reg: u32, id: u8) -> bool {
    reg & (1u32 << id) != 0
}

/// `reg` with bit `id` set.
pub open spec fn set_bit_of(reg: u32, id: u8) -> u32 {
    reg | (1u32 << id)
}

/// `reg` with bit `id` cleared.
pub open spec fn clear_bit_of(reg: u32, id: u8) -> u32 {
    reg & !(1u32 << id)
}

/// Setting a bit makes it set, clearing it makes it clear, and the other
/// bits stay.
pub proof fn lemma_bit_ops(reg: u32, id: u8)
    requires
        id < 32,
    ensures
        bit_of(set_bit_of(reg, id), id),
        !bit_of(clear_bit_of(reg, id), id),
        forall|j: u8| j < 32 && j != id ==> bit_of(#[trigger] set_bit_of(reg, id), j) == bit_of(reg, j),
        forall|j: u8| j < 32 && j != id ==> bit_of(#[trigger] clear_bit_of(reg, id), j) == bit_of(reg, j),
{
    assert((reg | (1u32 << id)) & (1u32 << id) != 0) by (bit_vector)
        requires
            id < 32,
    ;
    assert((reg & !(1u32 << id)) & (1u32 << id) == 0) by (bit_vector)
        requires
            id < 32,
    ;
    assert forall|j: u8| j < 32 && j != id implies bit_of(#[trigger] set_bit_of(reg, id), j) == bit_of(reg, j) by {
        assert(((reg | (1u32 << id)) & (1u32 << j) != 0) == (reg & (1u32 << j) != 0)) by (bit_vector)
            requires
                id < 32,
                j < 32,
                j != id,
        ;
    }
    assert forall|j: u8| j < 32 && j != id implies bit_of(#[trigger] clear_bit_of(reg, id), j) == bit_of(reg, j) by {
        assert(((reg & !(1u32 << id)) & (1u32 << j) != 0) == (reg & (1u32 << j) != 0)) by (bit_vector)
            requires
                id < 32,
                j < 32,
                j != id,
        ;
    }
}

/// A pin of a PIO port, in mode `Mode`.
pub struct Pin<Mode: PinMode> {
    registers: PortRegisters,
    id: u8,
    port_id: char,
    _mode: PhantomData<Mode>,
}

impl<Mode: PinMode> Pin<Mode> {
    /// A pin's number lies in `0..=31`.
    #[verifier::type_invariant]
    spec fn inv(self) -> bool {
        self.id < 32
    }

    /// Number of the pin within its port.
    pub closed spec fn id_view(&self) -> u8 {
        self.id
    }

    /// Letter of the pin's port.
    pub closed spec fn port_id_view(&self) -> char {
        self.port_id
    }

    /// The port's registers.
    pub closed spec fn registers_view(&self) -> PortRegisters {
        self.registers
    }

    /// Pin `id` of port `port_id`, over the port's registers; the number
    /// must lie in `0..=31`.
    pub fn new(registers: PortRegisters, port_id: char, id: u8) -> (r: Pin<Mode>)
        requires
            id < 32,
        ensures
            r.id_view() == id,
            r.port_id_view() == port_id,
            r.registers_view() == registers,
    {
        Pin { registers, id, port_id, _mode: PhantomData }
    }

    /// Returns the number of the pin (for example, 12 for PC12).
    pub fn id(&self) -> (r: u8)
        ensures
            r == self.id_view(),
            r < 32,
    {
        proof {
            use_type_invariant(self);
        }
        self.id
    }

    /// Returns the letter of the pin's port (for example, 'C' for PC12).
    pub fn port_id(&self) -> (r: char)
        ensures
            r == self.port_id_view(),
    {
        self.port_id
    }

    /// The port's registers.
    pub fn registers(&self) -> (r: PortRegisters)
        ensures
            r == self.registers_view(),
    {
        self.registers
    }

    /// Register mask of the pin: its own bit.
    pub fn pin_mask(&self) -> (r: u32)
        ensures
            r == 1u32 << self.id_view(),
            self.id_view() < 32,
    {
        proof {
            use_type_invariant(self);
        }
        1u32 << self.id
    }

    /// Whether the pin's bit is set in `register_value`.
    pub fn is_pin_bit_set(&self, register_value: u32) -> (r: bool)
        ensures
            r == bit_of(register_value, self.id_view()),
    {
        (register_value & self.pin_mask()) != 0
    }

    /// Current logic level on the pin's line.
    pub fn state(&self) -> (r: bool)
        ensures
            r == bit_of(self.registers_view().pdsr, self.id_view()),
    {
        self.is_pin_bit_set(self.registers.pdsr)
    }

    /// Whether a peripheral controls the pin.
    pub fn is_peripheral_controlled(&self) -> (r: bool)
        ensures
            r == !bit_of(self.registers_view().psr, self.id_view()),
    {
        !self.is_pio_controlled()
    }

    /// Whether the PIO controller controls the pin.
    pub fn is_pio_controlled(&self) -> (r: bool)
        ensures
            r == bit_of(self.registers_view().psr, self.id_view()),
    {
        self.is_pin_bit_set(self.registers.psr)
    }

    /// Whether the PIO controller controls the pin and it is an input.
    pub fn is_input(&self) -> (r: bool)
        ensures
            r == (bit_of(self.registers_view().psr, self.id_view()) && !bit_of(
                self.registers_view().osr,
                self.id_view(),
            )),
    {
        self.is_pio_controlled() && !self.is_pin_bit_set(self.registers.osr)
    }

    /// Whether the PIO controller controls the pin and it is an output.
    pub fn is_output(&self) -> (r: bool)
        ensures
            r == (bit_of(self.registers_view().psr, self.id_view()) && bit_of(
                self.registers_view().osr,
                self.id_view(),
            )),
    {
        self.is_pio_controlled() && self.is_pin_bit_set(self.registers.osr)
    }

    /// Whether the pull-up is enabled.
    pub fn is_pulled_up(&self) -> (r: bool)
        ensures
            r == bit_of(self.registers_view().pusr, self.id_view()),
    {
        self.is_pin_bit_set(self.registers.pusr)
    }

    /// Whether the pull-down is enabled.
    pub fn is_pulled_down(&self) -> (r: bool)
        ensures
            r == bit_of(self.registers_view().ppdsr, self.id_view()),
    {
        self.is_pin_bit_set(self.registers.ppdsr)
    }

    /// Current pull resistor configuration; pull-up and pull-down are never
    /// both enabled on working silicon.
    pub fn pull_resistor(&self) -> (r: PullResistor)
        requires
            !(bit_of(self.registers_view().pusr, self.id_view()) && bit_of(
                self.registers_view().ppdsr,
                self.id_view(),
            )),
        ensures
            r == if bit_of(self.registers_view().pusr, self.id_view()) {
                PullResistor::Up
            } else if bit_of(self.registers_view().ppdsr, self.id_view()) {
                PullResistor::Down
            } else {
                PullResistor::Disabled
            },
    {
        if self.is_pulled_up() {
            PullResistor::Up
        } else if self.is_pulled_down() {
            PullResistor::Down
        } else {
            PullResistor::Disabled
        }
    }

    /// Disables the pull-up and the pull-down.
    pub fn disable_pull_resistor(&mut self)
        ensures
            final(self).id_view() == old(self).id_view(),
            final(self).port_id_view() == old(self).port_id_view(),
            final(self).registers_view() == (PortRegisters {
                pusr: clear_bit_of(old(self).registers_view().pusr, old(self).id_view()),
                ppdsr: clear_bit_of(old(self).registers_view().ppdsr, old(self).id_view()),
                ..old(self).registers_view()
            }),
    {
        let mask = self.pin_mask();
        self.registers.pusr = self.registers.pusr & !mask;
        self.registers.ppdsr = self.registers.ppdsr & !mask;
    }

    /// Enables the pull-up, disabling the pull-down first.
    pub fn pull_up(&mut self)
        ensures
            final(self).id_view() == old(self).id_view(),
            final(self).port_id_view() == old(self).port_id_view(),
            final(self).registers_view() == (PortRegisters {
                pusr: set_bit_of(
                    clear_bit_of(old(self).registers_view().pusr, old(self).id_view()),
                    old(self).id_view(),
                ),
                ppdsr: clear_bit_of(old(self).registers_view().ppdsr, old(self).id_view()),
                ..old(self).registers_view()
            }),
    {
        self.disable_pull_resistor();
        let mask = self.pin_mask();
        self.registers.pusr = self.registers.pusr | mask;
    }

    /// Enables the pull-down, disabling the pull-up first.
    pub fn pull_down(&mut self)
        ensures
            final(self).id_view() == old(self).id_view(),
            final(self).port_id_view() == old(self).port_id_view(),
            final(self).registers_view() == (PortRegisters {
                pusr: clear_bit_of(old(self).registers_view().pusr, old(self).id_view()),
                ppdsr: set_bit_of(
                    clear_bit_of(old(self).registers_view().ppdsr, old(self).id_view()),
                    old(self).id_view(),
                ),
                ..old(self).registers_view()
            }),
    {
        self.disable_pull_resistor();
        let mask = self.pin_mask();
        self.registers.ppdsr = self.registers.ppdsr | mask;
    }

    /// Sets the pull resistor configuration; afterwards `pull_resistor`
    /// reports `resistor`.
    pub fn set_pull_resistor(&mut self, resistor: PullResistor)
        ensures
            final(self).id_view() == old(self).id_view(),
            final(self).port_id_view() == old(self).port_id_view(),
            bit_of(final(self).registers_view().pusr, final(self).id_view()) == (resistor
                == PullResistor::Up),
            bit_of(final(self).registers_view().ppdsr, final(self).id_view()) == (resistor
                == PullResistor::Down),
            forall|j: u8|
                j < 32 && j != old(self).id_view() ==> bit_of(
                    #[trigger] final(self).registers_view().pusr,
                    j,
                ) == bit_of(old(self).registers_view().pusr, j) && bit_of(
                    final(self).registers_view().ppdsr,
                    j,
                ) == bit_of(old(self).registers_view().ppdsr, j),
            final(self).registers_view().psr == old(self).registers_view().psr,
            final(self).registers_view().osr == old(self).registers_view().osr,
            final(self).registers_view().pdsr == old(self).registers_view().pdsr,
            final(self).registers_view().abcdsr0 == old(self).registers_view().abcdsr0,
            final(self).registers_view().abcdsr1 == old(self).registers_view().abcdsr1,
    {
        proof {
            use_type_invariant(&*self);
            let id = self.id;
            let regs = self.registers;
            lemma_bit_ops(regs.pusr, id);
            lemma_bit_ops(regs.ppdsr, id);
            lemma_bit_ops(clear_bit_of(regs.pusr, id), id);
            lemma_bit_ops(clear_bit_of(regs.ppdsr, id), id);
        }
        match resistor {
            PullResistor::Disabled => self.disable_pull_resistor(),
            PullResistor::Up => self.pull_up(),
            PullResistor::Down => self.pull_down(),
        }
    }

    /// The same pin in another mode.
    fn transform<NewMode: PinMode>(pin: Pin<NewMode>) -> (r: Self)
        ensures
            r.id_view() == pin.id_view(),
            r.port_id_view() == pin.port_id_view(),
            r.registers_view() == pin.registers_view(),
    {
        proof {
            use_type_invariant(&pin);
        }
        Pin { registers: pin.registers, id: pin.id, port_id: pin.port_id, _mode: PhantomData }
    }

    /// Selects the peripheral that controls the pin once control passes to
    /// peripherals: A is (0, 0) in the two select registers, B is (1, 0),
    /// C is (0, 1) and D is (1, 1).
    fn select_peripheral(&mut self, peripheral: Peripheral)
        ensures
            final(self).id_view() == old(self).id_view(),
            final(self).port_id_view() == old(self).port_id_view(),
            final(self).registers_view() == (PortRegisters {
                abcdsr0: match peripheral {
                    Peripheral::B | Peripheral::D => set_bit_of(
                        clear_bit_of(old(self).registers_view().abcdsr0, old(self).id_view()),
                        old(self).id_view(),
                    ),
                    _ => clear_bit_of(old(self).registers_view().abcdsr0, old(self).id_view()),
                },
                abcdsr1: match peripheral {
                    Peripheral::C | Peripheral::D => set_bit_of(
                        clear_bit_of(old(self).registers_view().abcdsr1, old(self).id_view()),
                        old(self).id_view(),
                    ),
                    _ => clear_bit_of(old(self).registers_view().abcdsr1, old(self).id_view()),
                },
                ..old(self).registers_view()
            }),
    {
        let mask = self.pin_mask();
        let mut select0 = self.registers.abcdsr0 & !mask;
        let mut select1 = self.registers.abcdsr1 & !mask;
        match peripheral {
            Peripheral::A => {},
            Peripheral::B => {
                select0 = select0 | mask;
            },
            Peripheral::C => {
                select1 = select1 | mask;
            },
            Peripheral::D => {
                select0 = select0 | mask;
                select1 = select1 | mask;
            },
        }
        self.registers.abcdsr0 = select0;
        self.registers.abcdsr1 = select1;
    }

    /// Gives control of the pin to `peripheral`.
    pub fn into_peripheral_pin(self, peripheral: Peripheral) -> (r: Pin<PeripheralMode>)
        ensures
            r.id_view() == self.id_view(),
            r.port_id_view() == self.port_id_view(),
            !bit_of(r.registers_view().psr, r.id_view()),
            bit_of(r.registers_view().abcdsr0, r.id_view()) == (peripheral == Peripheral::B
                || peripheral == Peripheral::D),
            bit_of(r.registers_view().abcdsr1, r.id_view()) == (peripheral == Peripheral::C
                || peripheral == Peripheral::D),
    {
        let mut pin = self;
        proof {
            use_type_invariant(&pin);
            let regs = pin.registers;
            lemma_bit_ops(regs.psr, pin.id);
            lemma_bit_ops(regs.abcdsr0, pin.id);
            lemma_bit_ops(regs.abcdsr1, pin.id);
            lemma_bit_ops(clear_bit_of(regs.abcdsr0, pin.id), pin.id);
            lemma_bit_ops(clear_bit_of(regs.abcdsr1, pin.id), pin.id);
        }
        pin.select_peripheral(peripheral);
        let mask = pin.pin_mask();
        pin.registers.psr = pin.registers.psr & !mask;
        Pin::transform(pin)
    }

    /// Gives control of the pin to the PIO controller, as an input.
    pub fn into_input_pin(self) -> (r: Pin<InputMode>)
        ensures
            r.id_view() == self.id_view(),
            r.port_id_view() == self.port_id_view(),
            bit_of(r.registers_view().psr, r.id_view()),
            !bit_of(r.registers_view().osr, r.id_view()),
    {
        let mut pin = self;
        proof {
            use_type_invariant(&pin);
            lemma_bit_ops(pin.registers.psr, pin.id);
            lemma_bit_ops(pin.registers.osr, pin.id);
        }
        let mask = pin.pin_mask();
        pin.registers.psr = pin.registers.psr | mask;
        pin.registers.osr = pin.registers.osr & !mask;
        Pin::transform(pin)
    }

    /// Gives control of the pin to the PIO controller, as an output.
    pub fn into_output_pin(self) -> (r: Pin<OutputMode>)
        ensures
            r.id_view() == self.id_view(),
            r.port_id_view() == self.port_id_view(),
            bit_of(r.registers_view().psr, r.id_view()),
            bit_of(r.registers_view().osr, r.id_view()),
    {
        let mut pin = self;
        proof {
            use_type_invariant(&pin);
            lemma_bit_ops(pin.registers.psr, pin.id);
            lemma_bit_ops(pin.registers.osr, pin.id);
        }
        let mask = pin.pin_mask();
        pin.registers.psr = pin.registers.psr | mask;
        pin.registers.osr = pin.registers.osr | mask;
        Pin::transform(pin)
    }
}

} // verus!
