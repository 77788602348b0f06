//! The thermocouple array: decoding of converter frames and the latest
//! values kept for every channel.

use std::collections::BTreeMap;
use vstd::prelude::*;

verus! {

broadcast use vstd::std_specs::btree::group_btree_axioms;

/// Configuration of the thermocouple array.
#[derive(Clone, Debug)]
pub struct Descriptor {
    /// Chip-select line of each converter; the position in the list is the
    /// channel id.
    pub cs_pins: Vec<usize>,
    /// Where the calibration offsets are kept between runs.
    pub calibration_file: String,
    /// Number of channels the store is laid out for.
    pub num_sensors: usize,
}

/// Why a converter frame carries no temperature.
#[derive(Clone, Copy, Debug, PartialEq, Eq, Structural)]
pub enum Fault {
    /// Every bit is low: nothing drives the data line.
    NoData,
    /// The open-input flag is raised: no thermocouple is attached.
    OpenThermocouple,
}

/// The 16-bit word of a frame, first byte most significant.
pub open spec fn frame_word(frame: [u8; 2]) -> nat {
    (frame[0] as nat) * 256 + frame[1] as nat
}

/// What a frame says: a fault, or the temperature in quarter degrees.
/// Bit 2 of the word is the open-input flag; the reading sits above the
/// three status bits.
pub open spec fn frame_reading(frame: [u8; 2]) -> Result<u16, Fault> {
    let word = frame_word(frame);
    if word == 0 {
        Err(Fault::NoData)
    } else if (word / 4) % 2 == 1 {
        Err(Fault::OpenThermocouple)
    } else {
        Ok((word / 8) as u16)
    }
}

/// Decodes the two bytes clocked out of a converter.
pub fn decode_frame(frame: [u8; 2]) -> (reading: Result<u16, Fault>)
    ensures
        reading == frame_reading(frame),
{
    let high: u16 = frame[0] as u16;
    let low: u16 = frame[1] as u16;
    let word: u16 = (high << 8) | low;
    assert(word == high * 256 + low) by (bit_vector)
        requires
            word == (high << 8) | low,
            high < 256,
            low < 256,
    ;
    if word == 0 {
        return Err(Fault::NoData);
    }
    assert((word & 4 == 4) <==> (word / 4) % 2 == 1) by (bit_vector);
    if word & 4 == 4 {
        return Err(Fault::OpenThermocouple);
    }
    assert(word >> 3 == word / 8) by (bit_vector);
    Ok(word >> 3)
}

/// The latest values of one channel.
pub struct Channel<T> {
    /// Last reading as it came from the converter, if any arrived yet.
    pub raw: Option<T>,
    /// Last smoothed estimate, if any reading was filtered yet.
    pub filtered: Option<T>,
    /// Correction that is added when the channel is shown.
    pub offset: T,
}

/// `n` channels without readings, each corrected by `offset`.
pub open spec fn fresh_channels<T>(n: nat, offset: T) -> Seq<Channel<T>> {
    Seq::new(n, |i: int| Channel { raw: None, filtered: None, offset })
}

/// `channels` after a reading `value` arrived on `channel`; unchanged when
/// there is no such channel.
pub open spec fn with_raw<T>(channels: Seq<Channel<T>>, channel: int, value: T) -> Seq<
    Channel<T>,
> {
    if 0 <= channel < channels.len() {
        channels.update(channel, Channel { raw: Some(value), ..channels[channel] })
    } else {
        channels
    }
}

/// `channels` after the estimate of `channel` moved to `value`; unchanged
/// when there is no such channel.
pub open spec fn with_filtered<T>(channels: Seq<Channel<T>>, channel: int, value: T) -> Seq<
    Channel<T>,
> {
    if 0 <= channel < channels.len() {
        channels.update(channel, Channel { filtered: Some(value), ..channels[channel] })
    } else {
        channels
    }
}

/// The offset `table` assigns to `channel`, or `fallback` when it has
/// none.
pub open spec fn offset_in<T>(table: Map<usize, T>, channel: int, fallback: T) -> T {
    if 0 <= channel <= usize::MAX && table.contains_key(channel as usize) {
        table[channel as usize]
    } else {
        fallback
    }
}

/// `channels` with every offset taken anew from `table`; a channel the
/// table does not mention gets `fallback`. Readings are kept.
pub open spec fn with_offsets<T>(
    channels: Seq<Channel<T>>,
    table: Map<usize, T>,
    fallback: T,
) -> Seq<Channel<T>> {
    Seq::new(
        channels.len(),
        |i: int| Channel { offset: offset_in(table, i, fallback), ..channels[i] },
    )
}

/// Latest raw value, latest filtered value and calibration offset of every
/// channel of the array. Channel ids are the positions `0..len`.
pub struct Temperatures<T> {
    channels: Vec<Channel<T>>,
    default_offset: T,
}

impl<T: Copy> View for Temperatures<T> {
    type V = Seq<Channel<T>>;

    closed spec fn view(&self) -> Seq<Channel<T>> {
        self.channels@
    }
}

impl<T: Copy> Temperatures<T> {
    /// The offset of a channel that no calibration mentions.
    pub closed spec fn default_offset(&self) -> T {
        self.default_offset
    }

    /// A store for channels `0..num_sensors`, none of which has a reading
    /// yet, all corrected by `default_offset`.
    pub fn new(num_sensors: usize, default_offset: T) -> (store: Self)
        ensures
            store@ == fresh_channels(num_sensors as nat, default_offset),
            store.default_offset() == default_offset,
    {
        let mut channels: Vec<Channel<T>> = Vec::new();
        let mut sensor_id: usize = 0;
        while sensor_id < num_sensors
            invariant
                sensor_id <= num_sensors,
                channels@ == fresh_channels(sensor_id as nat, default_offset),
            decreases num_sensors - sensor_id,
        {
            channels.push(Channel { raw: None, filtered: None, offset: default_offset });
            sensor_id = sensor_id + 1;
            assert(channels@ =~= fresh_channels(sensor_id as nat, default_offset));
        }
        Self { channels, default_offset }
    }

    /// Number of channels.
    pub fn len(&self) -> (n: usize)
        ensures
            n == self@.len(),
    {
        self.channels.len()
    }

    /// Replaces every offset by the one `table` holds for the channel, or
    /// by the default where it holds none. Entries for ids that are no
    /// channel are ignored; readings are kept.
    pub fn load_calibration(&mut self, table: &BTreeMap<usize, T>)
        ensures
            final(self)@ == with_offsets(old(self)@, table@, old(self).default_offset()),
            final(self).default_offset() == old(self).default_offset(),
    {
        let n = self.channels.len();
        let mut id: usize = 0;
        while id < n
            invariant
                id <= n,
                n == old(self)@.len(),
                self.channels@.len() == n,
                self.default_offset == old(self).default_offset,
                forall|i: int|
                    0 <= i < id ==> self.channels@[i] == with_offsets(
                        old(self)@,
                        table@,
                        old(self).default_offset(),
                    )[i],
                forall|i: int| id <= i < n ==> self.channels@[i] == old(self)@[i],
            decreases n - id,
        {
            let offset = match table.get(&id) {
                Some(found) => *found,
                None => self.default_offset,
            };
            let raw = self.channels[id].raw;
            let filtered = self.channels[id].filtered;
            self.channels.set(id, Channel { raw, filtered, offset });
            id = id + 1;
        }
        assert(self.channels@ =~= with_offsets(
            old(self)@,
            table@,
            old(self).default_offset(),
        ));
    }

    /// Records `value` as the latest raw reading of `channel`. Returns
    /// whether there is such a channel; if not, nothing changes.
    pub fn update_raw(&mut self, channel: usize, value: T) -> (known: bool)
        ensures
            known == (channel < old(self)@.len()),
            final(self)@ == with_raw(old(self)@, channel as int, value),
            final(self).default_offset() == old(self).default_offset(),
    {
        if channel < self.channels.len() {
            let filtered = self.channels[channel].filtered;
            let offset = self.channels[channel].offset;
            self.channels.set(channel, Channel { raw: Some(value), filtered, offset });
            true
        } else {
            false
        }
    }

    /// Records `value` as the latest filtered estimate of `channel`.
    /// Returns whether there is such a channel; if not, nothing changes.
    pub fn update_filtered(&mut self, channel: usize, value: T) -> (known: bool)
        ensures
            known == (channel < old(self)@.len()),
            final(self)@ == with_filtered(old(self)@, channel as int, value),
            final(self).default_offset() == old(self).default_offset(),
    {
        if channel < self.channels.len() {
            let raw = self.channels[channel].raw;
            let offset = self.channels[channel].offset;
            self.channels.set(channel, Channel { raw, filtered: Some(value), offset });
            true
        } else {
            false
        }
    }

    /// A copy of the values of every channel, in channel order.
    pub fn snapshot(&self) -> (copy: Vec<Channel<T>>)
        ensures
            copy@ == self@,
    {
        let mut copy: Vec<Channel<T>> = Vec::new();
        let mut id: usize = 0;
        while id < self.channels.len()
            invariant
                id <= self.channels@.len(),
                copy@ == self.channels@.take(id as int),
            decreases self.channels@.len() - id,
        {
            let channel = &self.channels[id];
            copy.push(
                Channel { raw: channel.raw, filtered: channel.filtered, offset: channel.offset },
            );
            id = id + 1;
            assert(copy@ =~= self.channels@.take(id as int));
        }
        assert(copy@ =~= self.channels@);
        copy
    }
}

} // verus!
