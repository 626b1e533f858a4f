//! The brain's smart ports and the motors on them.
use vstd::prelude::*;

verus! {

/// The number of the highest smart port.
pub const PORT_COUNT: u8 = 21;

/// A gear cartridge for a motor.
#[derive(Clone, Copy, Debug, PartialEq, Eq, Structural)]
pub enum Gearset {
    /// 6:1, 600 RPM.
    SixToOne,
    /// 18:1, 200 RPM.
    EighteenToOne,
    /// 36:1, 100 RPM.
    ThirtySixToOne,
}

impl Gearset {
    /// The firmware's code for the cartridge.
    pub open spec fn code(self) -> u32 {
        match self {
            Gearset::ThirtySixToOne => 0,
            Gearset::EighteenToOne => 1,
            Gearset::SixToOne => 2,
        }
    }

    /// The firmware's code for the cartridge.
    pub fn to_motor_gearset_e_t(&self) -> (r: u32)
        ensures
            r == self.code(),
    {
        match self {
            Gearset::SixToOne => 2,
            Gearset::EighteenToOne => 1,
            Gearset::ThirtySixToOne => 0,
        }
    }
}

/// An unconfigured smart port.
pub struct SmartPort {
    port: u8,
}

impl SmartPort {
    /// The port number.
    pub closed spec fn number(&self) -> u8 {
        self.port
    }

    /// The smart port numbered `port`, from 1 to [`PORT_COUNT`].
    pub fn new(port: u8) -> (r: SmartPort)
        requires
            1 <= port <= PORT_COUNT,
        ensures
            r.number() == port,
    {
        SmartPort { port }
    }

    /// The port number.
    pub fn port(&self) -> (r: u8)
        ensures
            r == self.number(),
    {
        self.port
    }

    /// The port, configured as a motor with the given cartridge and direction.
    pub fn as_motor(self, gearset: Gearset, is_reversed: bool) -> (r: Motor)
        requires
            1 <= self.number() <= PORT_COUNT,
        ensures
            r.number() == self.number(),
            r.gearset() == gearset,
            r.reversed() == is_reversed,
    {
        Motor::new(self.port, gearset, is_reversed)
    }
}

/// A smart port configured as a motor.
pub struct Motor {
    port: u8,
    gearset: Gearset,
    reversed: bool,
}

impl Motor {
    /// The port number.
    pub closed spec fn number(&self) -> u8 {
        self.port
    }

    /// The cartridge.
    pub closed spec fn gearset(&self) -> Gearset {
        self.gearset
    }

    /// Whether the motor runs reversed.
    pub closed spec fn reversed(&self) -> bool {
        self.reversed
    }

    /// A motor on port `port`, from 1 to [`PORT_COUNT`].
    pub fn new(port: u8, gearset: Gearset, reverse: bool) -> (r: Motor)
        requires
            1 <= port <= PORT_COUNT,
        ensures
            r.number() == port,
            r.gearset() == gearset,
            r.reversed() == reverse,
    {
        Motor { port, gearset, reversed: reverse }
    }

    /// The port number.
    pub fn port(&self) -> (r: u8)
        ensures
            r == self.number(),
    {
        self.port
    }

    /// The cartridge.
    pub fn get_gearset(&self) -> (r: Gearset)
        ensures
            r == self.gearset(),
    {
        self.gearset
    }

    /// Whether the motor runs reversed.
    pub fn is_reversed(&self) -> (r: bool)
        ensures
            r == self.reversed(),
    {
        self.reversed
    }
}

/// All the smart ports of the brain.
pub struct Peripherals {
    /// Smart port 1.
    pub port01: SmartPort,
    /// Smart port 2.
    pub port02: SmartPort,
    /// Smart port 3.
    pub port03: SmartPort,
    /// Smart port 4.
    pub port04: SmartPort,
    /// Smart port 5.
    pub port05: SmartPort,
    /// Smart port 6.
    pub port06: SmartPort,
    /// Smart port 7.
    pub port07: SmartPort,
    /// Smart port 8.
    pub port08: SmartPort,
    /// Smart port 9.
    pub port09: SmartPort,
    /// Smart port 10.
    pub port10: SmartPort,
    /// Smart port 11.
    pub port11: SmartPort,
    /// Smart port 12.
    pub port12: SmartPort,
    /// Smart port 13.
    pub port13: SmartPort,
    /// Smart port 14.
    pub port14: SmartPort,
    /// Smart port 15.
    pub port15: SmartPort,
    /// Smart port 16.
    pub port16: SmartPort,
    /// Smart port 17.
    pub port17: SmartPort,
    /// Smart port 18.
    pub port18: SmartPort,
    /// Smart port 19.
    pub port19: SmartPort,
    /// Smart port 20.
    pub port20: SmartPort,
    /// Smart port 21.
    pub port21: SmartPort,
}

impl Peripherals {
    /// Every smart port, each holding its own number. Whether the ports have
    /// been handed out before is for the caller to keep track of.
    pub fn steal() -> (r: Peripherals)
        ensures
            r.port01.number() == 1,
            r.port02.number() == 2,
            r.port03.number() == 3,
            r.port04.number() == 4,
            r.port05.number() == 5,
            r.port06.number() == 6,
            r.port07.number() == 7,
            r.port08.number() == 8,
            r.port09.number() == 9,
            r.port10.number() == 10,
            r.port11.number() == 11,
            r.port12.number() == 12,
            r.port13.number() == 13,
            r.port14.number() == 14,
            r.port15.number() == 15,
            r.port16.number() == 16,
            r.port17.number() == 17,
            r.port18.number() == 18,
            r.port19.number() == 19,
            r.port20.number() == 20,
            r.port21.number() == 21,
    {
        Peripherals {
            port01: SmartPort::new(1),
            port02: SmartPort::new(2),
            port03: SmartPort::new(3),
            port04: SmartPort::new(4),
            port05: SmartPort::new(5),
            port06: SmartPort::new(6),
            port07: SmartPort::new(7),
            port08: SmartPort::new(8),
            port09: SmartPort::new(9),
            port10: SmartPort::new(10),
            port11: SmartPort::new(11),
            port12: SmartPort::new(12),
            port13: SmartPort::new(13),
            port14: SmartPort::new(14),
            port15: SmartPort::new(15),
            port16: SmartPort::new(16),
            port17: SmartPort::new(17),
            port18: SmartPort::new(18),
            port19: SmartPort::new(19),
            port20: SmartPort::new(20),
            port21: SmartPort::new(21),
        }
    }

    /// Every smart port, unless they have been handed out already.
    pub fn take(taken: bool) -> (r: Option<Peripherals>)
        ensures
            r is Some <==> !taken,
            r is Some ==> r->0.port01.number() == 1,
            r is Some ==> r->0.port02.number() == 2,
            r is Some ==> r->0.port03.number() == 3,
            r is Some ==> r->0.port04.number() == 4,
            r is Some ==> r->0.port05.number() == 5,
            r is Some ==> r->0.port06.number() == 6,
            r is Some ==> r->0.port07.number() == 7,
            r is Some ==> r->0.port08.number() == 8,
            r is Some ==> r->0.port09.number() == 9,
            r is Some ==> r->0.port10.number() == 10,
            r is Some ==> r->0.port11.number() == 11,
            r is Some ==> r->0.port12.number() == 12,
            r is Some ==> r->0.port13.number() == 13,
            r is Some ==> r->0.port14.number() == 14,
            r is Some ==> r->0.port15.number() == 15,
            r is Some ==> r->0.port16.number() == 16,
            r is Some ==> r->0.port17.number() == 17,
            r is Some ==> r->0.port18.number() == 18,
            r is Some ==> r->0.port19.number() == 19,
            r is Some ==> r->0.port20.number() == 20,
            r is Some ==> r->0.port21.number() == 21,
    {
        if taken {
            None
        } else {
            Some(Peripherals::steal())
        }
    }
}

} // verus!
