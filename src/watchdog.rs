//! The watchdog timer, over its mode and control registers held as values.
use vstd::prelude::*;

verus! {

/// Mode register field: the counter value, 12 bits.
pub const WDV_MASK: u32 = 0xfff;

/// Mode register bit: an underflow resets the microcontroller.
pub const WDRSTEN: u32 = 0x2000;

/// Mode register bit: the watchdog is disabled.
pub const WDDIS: u32 = 0x8000;

/// Control register value that restarts the counter: the password key with
/// the restart bit.
pub const CR_RESTART: u32 = 0xa500_0001;

/// Largest counter value.
pub const MAX_COUNTER: u16 = 4095;

/// The watchdog's registers.
#[derive(Clone, Copy, Debug, PartialEq, Eq, Structural)]
pub struct WatchdogRegisters {
    /// Mode register.
    pub mr: u32,
    /// Last value written to the control register.
    pub cr: u32,
}

/// A watchdog, configured at most once: the hardware locks its mode until
/// the next reset, and disabling it counts as configuring it.
pub struct Watchdog {
    wdt: WatchdogRegisters,
    configured: bool,
}

/// Watchdog configuration.
#[derive(Clone, Copy, Debug, PartialEq, Eq, Structural)]
pub struct WatchdogConfiguration {
    /// If true, the watchdog stays enabled.
    pub enabled: bool,
    /// If true, the watchdog resets the microcontroller when it underflows.
    pub reset_enabled: bool,
    /// Counter value; values above the 12-bit field are clamped.
    pub counter: u16,
}

/// The mode register value that a configuration that keeps the watchdog
/// enabled gives: the reset bit and the clamped counter replace their fields.
pub open spec fn configured_mode(mr: u32, configuration: WatchdogConfiguration) -> u32 {
    let counter: u32 = if configuration.counter > MAX_COUNTER {
        MAX_COUNTER as u32
    } else {
        configuration.counter as u32
    };
    (mr & !(WDRSTEN | WDV_MASK)) | (if configuration.reset_enabled {
        WDRSTEN
    } else {
        0
    }) | counter
}

impl Watchdog {
    /// The registers.
    pub closed spec fn registers_view(&self) -> WatchdogRegisters {
        self.wdt
    }

    /// Whether the watchdog has been configured or disabled.
    pub closed spec fn configured_view(&self) -> bool {
        self.configured
    }

    /// A watchdog over its registers, not yet configured.
    pub fn new(wdt: WatchdogRegisters) -> (r: Watchdog)
        ensures
            r.registers_view() == wdt,
            !r.configured_view(),
    {
        Watchdog { wdt, configured: false }
    }

    /// The registers.
    pub fn registers(&self) -> (r: WatchdogRegisters)
        ensures
            r == self.registers_view(),
    {
        self.wdt
    }

    /// Whether the watchdog has been configured or disabled.
    pub fn is_configured(&self) -> (r: bool)
        ensures
            r == self.configured_view(),
    {
        self.configured
    }

    /// Applies a configuration, once: later calls change nothing. A
    /// configuration that does not keep the watchdog enabled disables it.
    pub fn configure(&mut self, configuration: WatchdogConfiguration)
        ensures
            old(self).configured_view() ==> final(self).registers_view() == old(
                self,
            ).registers_view() && final(self).configured_view(),
            !old(self).configured_view() ==> final(self).configured_view()
                && final(self).registers_view().cr == old(self).registers_view().cr
                && final(self).registers_view().mr == if configuration.enabled {
                configured_mode(old(self).registers_view().mr, configuration)
            } else {
                old(self).registers_view().mr | WDDIS
            },
    {
        if self.configured {
            return;
        }
        if !configuration.enabled {
            self.disable();
            return;
        }
        let counter: u32 = if configuration.counter > MAX_COUNTER {
            MAX_COUNTER as u32
        } else {
            configuration.counter as u32
        };
        let reset: u32 = if configuration.reset_enabled {
            WDRSTEN
        } else {
            0
        };
        self.wdt.mr = (self.wdt.mr & !(WDRSTEN | WDV_MASK)) | reset | counter;
        self.configured = true;
    }

    /// Restarts the counter.
    pub fn feed(&mut self)
        ensures
            final(self).registers_view().cr == CR_RESTART,
            final(self).registers_view().mr == old(self).registers_view().mr,
            final(self).configured_view() == old(self).configured_view(),
    {
        self.wdt.cr = CR_RESTART;
    }

    /// Disables the watchdog, unless it was configured before; it then stays
    /// off until the next reset.
    pub fn disable(&mut self)
        ensures
            final(self).configured_view(),
            final(self).registers_view().cr == old(self).registers_view().cr,
            final(self).registers_view().mr == if old(self).configured_view() {
                old(self).registers_view().mr
            } else {
                old(self).registers_view().mr | WDDIS
            },
    {
        if self.configured {
            return;
        }
        self.wdt.mr = self.wdt.mr | WDDIS;
        self.configured = true;
    }
}

/// The peripherals that the system gives to its hardware initialization.
pub struct Peripherals {
    /// The watchdog.
    pub watchdog: Watchdog,
}

impl Peripherals {
    /// The peripherals, with the watchdog over the given registers.
    pub fn new(wdt: WatchdogRegisters) -> (r: Peripherals)
        ensures
            r.watchdog.registers_view() == wdt,
            !r.watchdog.configured_view(),
    {
        Peripherals { watchdog: Watchdog::new(wdt) }
    }
}

} // verus!
