//! The networked power meter: where it is reached.

use vstd::prelude::*;
use vstd::string::StringExecFns;

verus! {

/// Configuration of the power meter.
#[derive(Clone, Debug)]
pub struct Descriptor {
    /// Host name or address, with an optional port.
    pub address: String,
    /// Names of the outputs of interest.
    pub output: Vec<String>,
}

/// Handle on one power meter.
pub struct Netio {
    url: String,
}

/// The status document of the meter at `address`.
pub open spec fn status_url(address: Seq<char>) -> Seq<char> {
    "http://"@ + address + "/netio.json"@
}

impl Netio {
    /// The address that is polled for readings.
    pub closed spec fn url_text(&self) -> Seq<char> {
        self.url@
    }

    /// A handle that polls the status document of the described meter.
    pub fn new(descriptor: &Descriptor) -> (netio: Self)
        ensures
            netio.url_text() == status_url(descriptor.address@),
    {
        let mut url = String::from_str("http://");
        url.append(descriptor.address.as_str());
        url.append("/netio.json");
        Self { url }
    }

    /// The address that is polled for readings.
    pub fn url(&self) -> (url: &str)
        ensures
            url@ == self.url_text(),
    {
        self.url.as_str()
    }
}

/// Position, in the meter's list of outputs, of the first of the two
/// outputs whose loads make up the power reading.
pub const FIRST_METERED_OUTPUT: usize = 2;

/// Position of the second of the two outputs.
pub const SECOND_METERED_OUTPUT: usize = 3;

/// The two loads that make up the power reading, given the load each
/// output reports, by position. `None` unless both metered outputs are
/// there and report a load.
pub open spec fn metered<T>(loads: Seq<Option<T>>) -> Option<(T, T)> {
    if SECOND_METERED_OUTPUT < loads.len() {
        match (loads[FIRST_METERED_OUTPUT as int], loads[SECOND_METERED_OUTPUT as int]) {
            (Some(first), Some(second)) => Some((first, second)),
            _ => None,
        }
    } else {
        None
    }
}

/// Picks the loads of the two metered outputs out of a status document's
/// list of outputs.
pub fn metered_loads<T: Copy>(loads: &Vec<Option<T>>) -> (pair: Option<(T, T)>)
    ensures
        pair == metered(loads@),
{
    if SECOND_METERED_OUTPUT < loads.len() {
        match (loads[FIRST_METERED_OUTPUT], loads[SECOND_METERED_OUTPUT]) {
            (Some(first), Some(second)) => Some((first, second)),
            _ => None,
        }
    } else {
        None
    }
}

} // verus!
