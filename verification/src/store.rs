//! The measurement store: the latest values of every source, the writes
//! that change them, and the consistent copy handed to the exporter.

use crate::max6675::{
    fresh_channels, with_filtered, with_offsets, with_raw, Channel, Temperatures,
};
use std::collections::BTreeMap;
use vstd::prelude::*;

verus! {

/// The sources that report a single value.
#[derive(Clone, Copy, Debug, PartialEq, Eq, Structural)]
pub enum Slot {
    /// Ambient temperature from the one-wire probe.
    AmbientTemperature,
    /// Supply voltage measured by the oscilloscope.
    PsuVoltage,
    /// Fan speed measured by the oscilloscope.
    FanRpm,
    /// Power drawn at the metered outputs.
    Power,
}

/// Everything the store holds at one instant.
#[verifier::ext_equal]
pub struct State<T> {
    /// The array channels, by channel id.
    pub channels: Seq<Channel<T>>,
    /// Latest ambient temperature, if the last poll gave one.
    pub ambient_temp: Option<T>,
    /// Latest supply voltage, if the last poll gave one.
    pub psu_voltage: Option<T>,
    /// Latest fan speed, if the last poll gave one.
    pub fan_rpm: Option<T>,
    /// Latest power, if the last poll gave one.
    pub power: Option<T>,
}

/// One change of the store.
pub enum Write<T> {
    /// A raw reading arrived on an array channel.
    Raw { channel: usize, value: T },
    /// The filtered estimate of an array channel moved.
    Filtered { channel: usize, value: T },
    /// A single-value source was polled; `None` when the poll failed.
    Scalar { slot: Slot, latest: Option<T> },
    /// A calibration table was loaded.
    Calibration { table: Map<usize, T> },
}

impl<T> Write<T> {
    /// Whether the write is a reading or an estimate for array channel
    /// `channel`.
    pub open spec fn feeds(self, channel: int) -> bool {
        match self {
            Write::Raw { channel: c, .. } => c == channel,
            Write::Filtered { channel: c, .. } => c == channel,
            _ => false,
        }
    }

    /// Whether the two writes change different places, so that neither can
    /// overwrite what the other wrote.
    pub open spec fn independent_of(self, other: Write<T>) -> bool {
        match (self, other) {
            (Write::Raw { channel: a, .. }, Write::Raw { channel: b, .. }) => a != b,
            (Write::Filtered { channel: a, .. }, Write::Filtered { channel: b, .. }) => a != b,
            (Write::Scalar { slot: a, .. }, Write::Scalar { slot: b, .. }) => a != b,
            (Write::Calibration { .. }, Write::Calibration { .. }) => false,
            _ => true,
        }
    }
}

impl<T> State<T> {
    /// The store at startup: `n` channels without readings, all offsets
    /// `offset`, no scalar value.
    pub open spec fn fresh(n: nat, offset: T) -> State<T> {
        State {
            channels: fresh_channels(n, offset),
            ambient_temp: None,
            psu_voltage: None,
            fan_rpm: None,
            power: None,
        }
    }

    /// The state with `slot` set to `value`.
    pub open spec fn with_scalar(self, slot: Slot, value: Option<T>) -> State<T> {
        match slot {
            Slot::AmbientTemperature => State { ambient_temp: value, ..self },
            Slot::PsuVoltage => State { psu_voltage: value, ..self },
            Slot::FanRpm => State { fan_rpm: value, ..self },
            Slot::Power => State { power: value, ..self },
        }
    }

    /// The state after `write`, in a store whose default offset is
    /// `fallback`.
    pub open spec fn apply(self, write: Write<T>, fallback: T) -> State<T> {
        match write {
            Write::Raw { channel, value } => State {
                channels: with_raw(self.channels, channel as int, value),
                ..self
            },
            Write::Filtered { channel, value } => State {
                channels: with_filtered(self.channels, channel as int, value),
                ..self
            },
            Write::Scalar { slot, latest } => self.with_scalar(slot, latest),
            Write::Calibration { table } => State {
                channels: with_offsets(self.channels, table, fallback),
                ..self
            },
        }
    }

    /// The state after all of `writes`, first to last.
    pub open spec fn replay(self, writes: Seq<Write<T>>, fallback: T) -> State<T>
        decreases writes.len(),
    {
        if writes.len() == 0 {
            self
        } else {
            self.replay(writes.drop_last(), fallback).apply(writes.last(), fallback)
        }
    }
}

/// A copy of the store's values as of one instant.
pub struct Snapshot<T> {
    /// The array channels, by channel id.
    pub channels: Vec<Channel<T>>,
    /// Ambient temperature.
    pub ambient_temp: Option<T>,
    /// Supply voltage.
    pub psu_voltage: Option<T>,
    /// Fan speed.
    pub fan_rpm: Option<T>,
    /// Power.
    pub power: Option<T>,
}

impl<T> View for Snapshot<T> {
    type V = State<T>;

    open spec fn view(&self) -> State<T> {
        State {
            channels: self.channels@,
            ambient_temp: self.ambient_temp,
            psu_voltage: self.psu_voltage,
            fan_rpm: self.fan_rpm,
            power: self.power,
        }
    }
}

/// The one structure shared by the sampling loops and the exporter.
pub struct MeasurementStore<T> {
    temperatures: Temperatures<T>,
    ambient_temp: Option<T>,
    psu_voltage: Option<T>,
    fan_rpm: Option<T>,
    power: Option<T>,
}

impl<T: Copy> View for MeasurementStore<T> {
    type V = State<T>;

    closed spec fn view(&self) -> State<T> {
        State {
            channels: self.temperatures@,
            ambient_temp: self.ambient_temp,
            psu_voltage: self.psu_voltage,
            fan_rpm: self.fan_rpm,
            power: self.power,
        }
    }
}

impl<T: Copy> MeasurementStore<T> {
    /// The offset of a channel that no calibration mentions.
    pub closed spec fn default_offset(&self) -> T {
        self.temperatures.default_offset()
    }

    /// The store at startup, for array channels `0..num_sensors`.
    pub fn new(num_sensors: usize, default_offset: T) -> (store: Self)
        ensures
            store@ == State::fresh(num_sensors as nat, default_offset),
            store.default_offset() == default_offset,
    {
        Self {
            temperatures: Temperatures::new(num_sensors, default_offset),
            ambient_temp: None,
            psu_voltage: None,
            fan_rpm: None,
            power: None,
        }
    }

    /// Number of array channels.
    pub fn channels(&self) -> (n: usize)
        ensures
            n == self@.channels.len(),
    {
        self.temperatures.len()
    }

    /// Records the raw reading `value` of array channel `channel`. Returns
    /// whether there is such a channel; if not, nothing changes.
    pub fn update_raw(&mut self, channel: usize, value: T) -> (known: bool)
        ensures
            known == (channel < old(self)@.channels.len()),
            final(self)@ == old(self)@.apply(
                (Write::Raw { channel, value }),
                old(self).default_offset(),
            ),
            final(self).default_offset() == old(self).default_offset(),
    {
        self.temperatures.update_raw(channel, value)
    }

    /// Records the filtered estimate `value` of array channel `channel`.
    /// Returns whether there is such a channel; if not, nothing changes.
    pub fn update_filtered(&mut self, channel: usize, value: T) -> (known: bool)
        ensures
            known == (channel < old(self)@.channels.len()),
            final(self)@ == old(self)@.apply(
                (Write::Filtered { channel, value }),
                old(self).default_offset(),
            ),
            final(self).default_offset() == old(self).default_offset(),
    {
        self.temperatures.update_filtered(channel, value)
    }

    /// Takes in the outcome of polling array channel `channel`: the raw
    /// reading together with the estimate it moved the channel's filter
    /// to, or `None` when the read failed. A failed read changes nothing;
    /// neither does a reading for an id that is no channel. Returns
    /// whether anything was stored.
    pub fn record(&mut self, channel: usize, outcome: Option<(T, T)>) -> (stored: bool)
        ensures
            stored == (outcome.is_some() && channel < old(self)@.channels.len()),
            final(self)@ == (match outcome {
                Some((raw, filtered)) => old(self)@.apply(
                    (Write::Raw { channel, value: raw }),
                    old(self).default_offset(),
                ).apply(
                    (Write::Filtered { channel, value: filtered }),
                    old(self).default_offset(),
                ),
                None => old(self)@,
            }),
            final(self).default_offset() == old(self).default_offset(),
    {
        match outcome {
            Some((raw, filtered)) => {
                let known = self.temperatures.update_raw(channel, raw);
                self.temperatures.update_filtered(channel, filtered);
                known
            },
            None => false,
        }
    }

    /// Sets `slot` to the outcome of the latest poll of its source, `None`
    /// when the poll failed.
    pub fn update_scalar(&mut self, slot: Slot, value: Option<T>)
        ensures
            final(self)@ == old(self)@.apply(
                (Write::Scalar { slot, latest: value }),
                old(self).default_offset(),
            ),
            final(self).default_offset() == old(self).default_offset(),
    {
        match slot {
            Slot::AmbientTemperature => {
                self.ambient_temp = value;
            },
            Slot::PsuVoltage => {
                self.psu_voltage = value;
            },
            Slot::FanRpm => {
                self.fan_rpm = value;
            },
            Slot::Power => {
                self.power = value;
            },
        }
    }

    /// Replaces the calibration by `table`: a channel takes the offset the
    /// table holds for it, and the default offset where it holds none.
    pub fn load_calibration(&mut self, table: &BTreeMap<usize, T>)
        ensures
            final(self)@ == old(self)@.apply(
                (Write::Calibration { table: table@ }),
                old(self).default_offset(),
            ),
            final(self).default_offset() == old(self).default_offset(),
    {
        self.temperatures.load_calibration(table);
    }

    /// A copy of every value as of now.
    pub fn snapshot(&self) -> (copy: Snapshot<T>)
        ensures
            copy@ == self@,
    {
        Snapshot {
            channels: self.temperatures.snapshot(),
            ambient_temp: self.ambient_temp,
            psu_voltage: self.psu_voltage,
            fan_rpm: self.fan_rpm,
            power: self.power,
        }
    }
}

/// No write adds or removes a channel.
pub proof fn lemma_replay_keeps_channel_count<T>(
    state: State<T>,
    writes: Seq<Write<T>>,
    fallback: T,
)
    ensures
        state.replay(writes, fallback).channels.len() == state.channels.len(),
    decreases writes.len(),
{
    if writes.len() > 0 {
        lemma_replay_keeps_channel_count(state, writes.drop_last(), fallback);
    }
}

/// A channel that no write fed has neither a raw nor a filtered value,
/// whatever else was written since startup.
pub proof fn lemma_unfed_channel_stays_empty<T>(
    n: nat,
    fallback: T,
    writes: Seq<Write<T>>,
    channel: int,
)
    requires
        0 <= channel < n,
        forall|i: int| 0 <= i < writes.len() ==> !(#[trigger] writes[i]).feeds(channel),
    ensures
        State::fresh(n, fallback).replay(writes, fallback).channels.len() == n,
        State::fresh(n, fallback).replay(writes, fallback).channels[channel].raw.is_none(),
        State::fresh(n, fallback).replay(writes, fallback).channels[channel].filtered.is_none(),
    decreases writes.len(),
{
    if writes.len() > 0 {
        let earlier = writes.drop_last();
        assert forall|i: int| 0 <= i < earlier.len() implies !(#[trigger] earlier[i]).feeds(
            channel,
        ) by {
            assert(earlier[i] == writes[i]);
        }
        lemma_unfed_channel_stays_empty(n, fallback, earlier, channel);
        assert(!writes[writes.len() - 1].feeds(channel));
    }
}

/// Two writes to different places leave the same state in either order.
pub proof fn lemma_independent_writes_commute<T>(
    state: State<T>,
    first: Write<T>,
    second: Write<T>,
    fallback: T,
)
    requires
        first.independent_of(second),
    ensures
        state.apply(first, fallback).apply(second, fallback) == state.apply(
            second,
            fallback,
        ).apply(first, fallback),
{
    let a = state.apply(first, fallback).apply(second, fallback);
    let b = state.apply(second, fallback).apply(first, fallback);
    assert(a.channels =~= b.channels);
    assert(a =~= b);
}

/// Replaying two histories one after the other is replaying them joined.
pub proof fn lemma_replay_joined<T>(
    state: State<T>,
    first: Seq<Write<T>>,
    second: Seq<Write<T>>,
    fallback: T,
)
    ensures
        state.replay(first + second, fallback) == state.replay(first, fallback).replay(
            second,
            fallback,
        ),
    decreases second.len(),
{
    if second.len() == 0 {
        assert(first + second =~= first);
    } else {
        lemma_replay_joined(state, first, second.drop_last(), fallback);
        assert((first + second).drop_last() =~= first + second.drop_last());
        assert((first + second).last() == second.last());
    }
}

/// The order in which two neighbouring writes to different places
/// arrived leaves no trace: a history and the same history with the two
/// swapped end in the same state.
pub proof fn lemma_history_order_is_forgotten<T>(
    state: State<T>,
    before: Seq<Write<T>>,
    first: Write<T>,
    second: Write<T>,
    after: Seq<Write<T>>,
    fallback: T,
)
    requires
        first.independent_of(second),
    ensures
        state.replay(before + seq![first, second] + after, fallback) == state.replay(
            before + seq![second, first] + after,
            fallback,
        ),
{
    let reached = state.replay(before, fallback);
    let one = seq![first, second];
    let other = seq![second, first];
    lemma_replay_joined(state, before + one, after, fallback);
    lemma_replay_joined(state, before + other, after, fallback);
    lemma_replay_joined(state, before, one, fallback);
    lemma_replay_joined(state, before, other, fallback);
    assert(reached.replay(one, fallback) == reached.apply(first, fallback).apply(
        second,
        fallback,
    )) by {
        assert(one.drop_last() =~= seq![first]);
        assert(one.drop_last().drop_last() =~= Seq::<Write<T>>::empty());
        assert(reached.replay(Seq::<Write<T>>::empty(), fallback) == reached);
        assert(reached.replay(seq![first], fallback) == reached.apply(first, fallback));
    }
    assert(reached.replay(other, fallback) == reached.apply(second, fallback).apply(
        first,
        fallback,
    )) by {
        assert(other.drop_last() =~= seq![second]);
        assert(other.drop_last().drop_last() =~= Seq::<Write<T>>::empty());
        assert(reached.replay(Seq::<Write<T>>::empty(), fallback) == reached);
        assert(reached.replay(seq![second], fallback) == reached.apply(second, fallback));
    }
    lemma_independent_writes_commute(reached, first, second, fallback);
}

/// Writing the same value to the same place twice is the same as writing
/// it once.
pub proof fn lemma_write_is_idempotent<T>(state: State<T>, write: Write<T>, fallback: T)
    ensures
        state.apply(write, fallback).apply(write, fallback) == state.apply(write, fallback),
{
    let once = state.apply(write, fallback);
    let twice = once.apply(write, fallback);
    assert(twice.channels =~= once.channels);
    assert(twice =~= once);
}

} // verus!
