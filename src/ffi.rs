//! Values that cross the C interface of the ADCS driver of the IMTQ
//! magnetorquer.
use vstd::prelude::*;

verus! {

/// Status that a driver call reports.
#[derive(Clone, Copy, Debug, PartialEq, Eq, Structural)]
pub enum KADCSStatus {
    Success,
    Error,
    ErrorConfig,
    ErrorNoResponse,
    ErrorInternal,
    ErrorMutex,
    ErrorNotImplemented,
}

impl Default for KADCSStatus {
    fn default() -> (r: KADCSStatus)
        ensures
            r == KADCSStatus::Success,
    {
        KADCSStatus::Success
    }
}

/// The I2C bus the device sits on.
#[allow(non_camel_case_types)]
#[derive(Clone, Copy, Debug, PartialEq, Eq, Structural, Hash)]
pub enum KI2CNum {
    K_I2C_NO_BUS,
    K_I2C1,
    K_I2C2,
    K_I2C3,
}

pub open spec fn bus_of(num: u8) -> KI2CNum {
    if num == 1 {
        KI2CNum::K_I2C1
    } else if num == 2 {
        KI2CNum::K_I2C2
    } else if num == 3 {
        KI2CNum::K_I2C3
    } else {
        KI2CNum::K_I2C_NO_BUS
    }
}

impl From<u8> for KI2CNum {
    /// Buses 1 to 3 by number; any other number is no bus.
    fn from(num: u8) -> (r: KI2CNum) {
        if num == 1 {
            KI2CNum::K_I2C1
        } else if num == 2 {
            KI2CNum::K_I2C2
        } else if num == 3 {
            KI2CNum::K_I2C3
        } else {
            KI2CNum::K_I2C_NO_BUS
        }
    }
}

impl vstd::std_specs::convert::FromSpecImpl<u8> for KI2CNum {
    open spec fn obeys_from_spec() -> bool {
        true
    }

    open spec fn from_spec(v: u8) -> KI2CNum {
        bus_of(v)
    }
}

/// A delay handed to the driver.
#[allow(non_camel_case_types)]
#[derive(Clone, Copy, Debug, PartialEq, Eq, Structural, Hash)]
pub struct timespec {
    pub tv_sec: i32,
    pub tv_nsec: i64,
}

/// The driver itself, called through its C interface.
#[derive(Clone, Copy, Debug)]
pub struct ImtqRaw {}

} // verus!
