//! The configuration of all sources.

use crate::ds18b20;
use crate::max6675;
use crate::netio;
use crate::scope;
use vstd::prelude::*;

verus! {

/// Everything the collector is told at startup about its sources.
#[derive(Clone, Debug)]
pub struct Config {
    /// The oscilloscope.
    pub scope: scope::Descriptor,
    /// The ambient thermometer.
    pub ds18b20: ds18b20::Descriptor,
    /// The thermocouple array.
    pub sensors: max6675::Descriptor,
    /// The power meter.
    pub netio: netio::Descriptor,
}

} // verus!
