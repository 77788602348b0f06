//! The oscilloscope: where it is reached, how it is set up, and how its
//! replies are read.

use crate::decimal::{decimal, push_decimal};
use crate::text::{
    chars_of, find_first, first_index, remove_text, trim_bounds, trimmed, without_text,
};
use vstd::prelude::*;
use vstd::string::{StrSliceExecFns, StringExecFns};

verus! {

/// Configuration of the oscilloscope's control connection.
#[derive(Clone, Debug)]
pub struct Descriptor {
    /// Host name or address.
    pub address: String,
    /// TCP port of the control socket.
    pub port: usize,
}

impl Descriptor {
    /// The socket address `host:port` of the control connection.
    pub fn resource(&self) -> (resource: String)
        ensures
            resource@ == self.address@ + ":"@ + decimal(self.port as nat),
    {
        let mut resource = self.address.clone();
        resource.append(":");
        push_decimal(&mut resource, self.port as u128);
        resource
    }
}

/// The query that makes the instrument report the mean of the supply
/// voltage channel.
pub const VOLTAGE_QUERY: &'static str = "C1:PAVA? MEAN";

/// The query that makes the instrument report the frequency of the fan
/// tachometer channel.
pub const FREQUENCY_QUERY: &'static str = "C2:PAVA? FREQ";

/// The commands that set the instrument up, in the order they are sent:
/// a reset, the time base, then attenuation, scale and offset of the
/// supply voltage channel and of the fan tachometer channel.
pub open spec fn setup_texts() -> Seq<Seq<char>> {
    seq![
        "*RST"@,
        "TDIV 10MS"@,
        "C1:ATTN 10"@,
        "C1:VDIV 5V"@,
        "C1:OFST -15V"@,
        "C2:ATTN 10"@,
        "C2:VDIV 1V"@,
        "C2:OFST -3V"@,
    ]
}

/// The commands that set the instrument up, in the order they are sent.
pub fn setup_commands() -> (commands: Vec<&'static str>)
    ensures
        commands@.len() == setup_texts().len(),
        forall|i: int| 0 <= i < commands@.len() ==> (#[trigger] commands@[i])@ == setup_texts()[i],
{
    let mut commands: Vec<&'static str> = Vec::new();
    commands.push("*RST");
    commands.push("TDIV 10MS");
    commands.push("C1:ATTN 10");
    commands.push("C1:VDIV 5V");
    commands.push("C1:OFST -15V");
    commands.push("C2:ATTN 10");
    commands.push("C2:VDIV 1V");
    commands.push("C2:OFST -3V");
    commands
}

/// The value a reply carries: its second comma-separated field, once the
/// white space around the reply is dropped. `None` when the reply has no
/// comma.
pub open spec fn reply_value(reply: Seq<char>) -> Option<Seq<char>> {
    let body = trimmed(reply);
    let comma = first_index(body, ',');
    if comma >= body.len() {
        None
    } else {
        let rest = body.skip(comma + 1);
        Some(rest.take(first_index(rest, ',')))
    }
}

/// The number in a reply to the voltage query: the value without its unit
/// letter `V`.
pub open spec fn voltage_value(reply: Seq<char>) -> Option<Seq<char>> {
    match reply_value(reply) {
        Some(value) => Some(without_text(value, "V"@)),
        None => None,
    }
}

/// The number in a reply to the frequency query: the value without its
/// unit `Hz`.
pub open spec fn frequency_value(reply: Seq<char>) -> Option<Seq<char>> {
    match reply_value(reply) {
        Some(value) => Some(without_text(value, "Hz"@)),
        None => None,
    }
}

/// Cuts the value out of a reply.
pub fn reply_field<'a>(reply: &'a str) -> (field: Option<&'a str>)
    ensures
        (match field {
            Some(value) => reply_value(reply@) == Some(value@),
            None => reply_value(reply@).is_none(),
        }),
{
    let chars = chars_of(reply);
    let (start, end) = trim_bounds(&chars, 0, chars.len());
    let comma = find_first(&chars, start, end, ',');
    proof {
        assert(chars@.subrange(0, chars@.len() as int) =~= chars@);
    }
    if comma == end {
        return None;
    }
    let next = find_first(&chars, comma + 1, end, ',');
    proof {
        let body = trimmed(reply@);
        let rest = body.skip(comma - start + 1);
        assert(rest =~= chars@.subrange(comma + 1, end as int));
        assert(rest.take(next - comma - 1) =~= reply@.subrange(comma + 1, next as int));
    }
    Some(reply.substring_char(comma + 1, next))
}

/// The text of the number in a reply to the voltage query; `None` when
/// the reply carries no value.
pub fn psu_voltage_text(reply: &str) -> (number: Option<String>)
    ensures
        (match number {
            Some(text) => voltage_value(reply@) == Some(text@),
            None => voltage_value(reply@).is_none(),
        }),
{
    match reply_field(reply) {
        Some(value) => Some(remove_text(value, "V")),
        None => None,
    }
}

/// The text of the number in a reply to the frequency query; `None` when
/// the reply carries no value.
pub fn fan_frequency_text(reply: &str) -> (number: Option<String>)
    ensures
        (match number {
            Some(text) => frequency_value(reply@) == Some(text@),
            None => frequency_value(reply@).is_none(),
        }),
{
    match reply_field(reply) {
        Some(value) => Some(remove_text(value, "Hz")),
        None => None,
    }
}

} // verus!
