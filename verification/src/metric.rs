//! The metrics document: which lines a snapshot gives rise to, in which
//! order, and how each line is written.

use crate::decimal::{decimal, push_decimal};
use crate::max6675::Channel;
use crate::store::{
    lemma_history_order_is_forgotten, lemma_replay_keeps_channel_count,
    lemma_unfed_channel_stays_empty, Snapshot, State, Write,
};
use vstd::prelude::*;
use vstd::string::StringExecFns;

verus! {

/// The series a metric belongs to.
#[derive(Clone, Copy, Debug, PartialEq, Eq, Structural)]
pub enum Family {
    /// Supply voltage, in volts.
    ScopeVoltage,
    /// Fan speed, in revolutions per minute.
    ScopeFanRpm,
    /// Ambient temperature, in degrees Celsius.
    AmbientTemperature,
    /// Power drawn, in watts.
    Power,
    /// Raw thermocouple reading with the calibration offset applied.
    Temperature,
    /// Filtered thermocouple estimate with the calibration offset applied.
    TemperatureFiltered,
    /// Raw thermocouple reading as stored.
    TemperatureRaw,
}

impl Family {
    /// The metric name that starts every line of the series.
    pub open spec fn name_text(self) -> Seq<char> {
        match self {
            Family::ScopeVoltage => "scope_voltage_v"@,
            Family::ScopeFanRpm => "scope_fan_rpm"@,
            Family::AmbientTemperature => "ds18b20_temperature_c"@,
            Family::Power => "netio_power_w"@,
            Family::Temperature => "max6675_temperature_c"@,
            Family::TemperatureFiltered => "max6675_temperature_filtered_c"@,
            Family::TemperatureRaw => "max6675_temperature_raw_c"@,
        }
    }

    /// Number of digits after the decimal point with which values of the
    /// series are written.
    pub open spec fn precision(self) -> nat {
        match self {
            Family::ScopeFanRpm => 0,
            _ => 2,
        }
    }

    /// The metric name that starts every line of the series.
    pub fn name(&self) -> (name: &'static str)
        ensures
            name@ == self.name_text(),
    {
        match self {
            Family::ScopeVoltage => "scope_voltage_v",
            Family::ScopeFanRpm => "scope_fan_rpm",
            Family::AmbientTemperature => "ds18b20_temperature_c",
            Family::Power => "netio_power_w",
            Family::Temperature => "max6675_temperature_c",
            Family::TemperatureFiltered => "max6675_temperature_filtered_c",
            Family::TemperatureRaw => "max6675_temperature_raw_c",
        }
    }

    /// Number of digits after the decimal point with which values of the
    /// series are written.
    pub fn decimals(&self) -> (digits: usize)
        ensures
            digits == self.precision(),
    {
        match self {
            Family::ScopeFanRpm => 0,
            _ => 2,
        }
    }
}

/// One value to be exported. The value shown is `value`, with `offset`
/// added where there is one.
pub struct Metric<T> {
    /// The series.
    pub family: Family,
    /// The array channel, for the thermocouple series.
    pub channel: Option<usize>,
    /// The value as stored.
    pub value: T,
    /// The calibration offset to add, for the calibrated series.
    pub offset: Option<T>,
    /// Milliseconds since the epoch at which the snapshot was taken.
    pub timestamp: u128,
}

/// The metric of a single-value source: none when it has no value.
pub open spec fn scalar_metric<T>(family: Family, value: Option<T>, timestamp: u128) -> Seq<
    Metric<T>,
> {
    match value {
        Some(v) => seq![Metric { family, channel: None, value: v, offset: None, timestamp }],
        None => Seq::empty(),
    }
}

/// The metric of series `family` for array channel `id`: none when the
/// channel has no value of that kind, or when the series is not one of the
/// array's.
pub open spec fn channel_metric<T>(
    family: Family,
    id: int,
    channel: Channel<T>,
    timestamp: u128,
) -> Seq<Metric<T>> {
    match family {
        Family::Temperature => match channel.raw {
            Some(v) => seq![
                Metric {
                    family,
                    channel: Some(id as usize),
                    value: v,
                    offset: Some(channel.offset),
                    timestamp,
                },
            ],
            None => Seq::empty(),
        },
        Family::TemperatureFiltered => match channel.filtered {
            Some(v) => seq![
                Metric {
                    family,
                    channel: Some(id as usize),
                    value: v,
                    offset: Some(channel.offset),
                    timestamp,
                },
            ],
            None => Seq::empty(),
        },
        Family::TemperatureRaw => match channel.raw {
            Some(v) => seq![
                Metric { family, channel: Some(id as usize), value: v, offset: None, timestamp },
            ],
            None => Seq::empty(),
        },
        _ => Seq::empty(),
    }
}

/// The metrics of series `family` for the channels `0..upto`, by channel
/// id.
pub open spec fn array_metrics<T>(
    family: Family,
    channels: Seq<Channel<T>>,
    upto: int,
    timestamp: u128,
) -> Seq<Metric<T>>
    decreases upto,
{
    if upto <= 0 {
        Seq::empty()
    } else {
        array_metrics(family, channels, upto - 1, timestamp) + channel_metric(
            family,
            upto - 1,
            channels[upto - 1],
            timestamp,
        )
    }
}

/// Every metric of `state`, in the order of the document: the single-value
/// sources first, then each thermocouple series by channel id.
pub open spec fn metrics_of<T>(state: State<T>, timestamp: u128) -> Seq<Metric<T>> {
    let n = state.channels.len() as int;
    scalar_metric(Family::ScopeVoltage, state.psu_voltage, timestamp) + scalar_metric(
        Family::ScopeFanRpm,
        state.fan_rpm,
        timestamp,
    ) + scalar_metric(Family::AmbientTemperature, state.ambient_temp, timestamp) + scalar_metric(
        Family::Power,
        state.power,
        timestamp,
    ) + array_metrics(Family::Temperature, state.channels, n, timestamp) + array_metrics(
        Family::TemperatureFiltered,
        state.channels,
        n,
        timestamp,
    ) + array_metrics(Family::TemperatureRaw, state.channels, n, timestamp)
}

impl<T: Copy> Metric<T> {
    /// The metric of a single-value source, if it has a value.
    pub fn new(family: Family, value: Option<T>, timestamp: u128) -> (metric: Option<Self>)
        ensures
            metric.is_some() == value.is_some(),
            (match metric {
                Some(m) => seq![m] == scalar_metric(family, value, timestamp),
                None => scalar_metric(family, value, timestamp) == Seq::<Metric<T>>::empty(),
            }),
    {
        match value {
            Some(v) => Some(Metric { family, channel: None, value: v, offset: None, timestamp }),
            None => None,
        }
    }

    /// The metric of series `family` for array channel `id`, if the
    /// channel has a value of that kind.
    pub fn of_channel(family: Family, id: usize, channel: &Channel<T>, timestamp: u128) -> (metric:
        Option<Self>)
        ensures
            (match metric {
                Some(m) => seq![m] == channel_metric(family, id as int, *channel, timestamp),
                None => channel_metric(family, id as int, *channel, timestamp) == Seq::<
                    Metric<T>,
                >::empty(),
            }),
    {
        let (value, offset) = match family {
            Family::Temperature => (channel.raw, Some(channel.offset)),
            Family::TemperatureFiltered => (channel.filtered, Some(channel.offset)),
            Family::TemperatureRaw => (channel.raw, None),
            _ => (None, None),
        };
        match value {
            Some(v) => Some(Metric { family, channel: Some(id), value: v, offset, timestamp }),
            None => None,
        }
    }
}

fn push_scalar<T: Copy>(
    list: &mut Vec<Metric<T>>,
    family: Family,
    value: Option<T>,
    timestamp: u128,
)
    ensures
        final(list)@ == old(list)@ + scalar_metric(family, value, timestamp),
{
    match Metric::new(family, value, timestamp) {
        Some(metric) => {
            list.push(metric);
            assert(list@ =~= old(list)@ + seq![metric]);
        },
        None => {
            assert(list@ =~= old(list)@ + Seq::<Metric<T>>::empty());
        },
    }
}

fn push_series<T: Copy>(
    list: &mut Vec<Metric<T>>,
    family: Family,
    channels: &Vec<Channel<T>>,
    timestamp: u128,
)
    ensures
        final(list)@ == old(list)@ + array_metrics(
            family,
            channels@,
            channels@.len() as int,
            timestamp,
        ),
{
    let mut id: usize = 0;
    assert(list@ =~= old(list)@ + array_metrics(family, channels@, 0, timestamp));
    while id < channels.len()
        invariant
            id <= channels@.len(),
            list@ == old(list)@ + array_metrics(family, channels@, id as int, timestamp),
        decreases channels@.len() - id,
    {
        let ghost before = list@;
        match Metric::of_channel(family, id, &channels[id], timestamp) {
            Some(metric) => {
                list.push(metric);
                assert(list@ =~= before + seq![metric]);
            },
            None => {
                assert(list@ =~= before + Seq::<Metric<T>>::empty());
            },
        }
        id = id + 1;
        assert(list@ =~= old(list)@ + array_metrics(family, channels@, id as int, timestamp));
    }
}

impl<T: Copy> Snapshot<T> {
    /// Every value the snapshot holds, as the metrics of the document and
    /// in its order, all stamped with the one `timestamp`. A source
    /// without a value gives no metric.
    pub fn metrics(&self, timestamp: u128) -> (list: Vec<Metric<T>>)
        ensures
            list@ == metrics_of(self@, timestamp),
    {
        let mut list: Vec<Metric<T>> = Vec::new();
        assert(list@ =~= Seq::<Metric<T>>::empty());
        push_scalar(&mut list, Family::ScopeVoltage, self.psu_voltage, timestamp);
        push_scalar(&mut list, Family::ScopeFanRpm, self.fan_rpm, timestamp);
        push_scalar(&mut list, Family::AmbientTemperature, self.ambient_temp, timestamp);
        push_scalar(&mut list, Family::Power, self.power, timestamp);
        push_series(&mut list, Family::Temperature, &self.channels, timestamp);
        push_series(&mut list, Family::TemperatureFiltered, &self.channels, timestamp);
        push_series(&mut list, Family::TemperatureRaw, &self.channels, timestamp);
        assert(list@ =~= metrics_of(self@, timestamp));
        list
    }
}

/// Whether two lists of metrics name the same series and channels in the
/// same order, whatever their values and timestamps.
pub open spec fn same_lines<T>(a: Seq<Metric<T>>, b: Seq<Metric<T>>) -> bool {
    &&& a.len() == b.len()
    &&& forall|i: int|
        0 <= i < a.len() ==> (#[trigger] a[i]).family == b[i].family && a[i].channel
            == b[i].channel
}

/// Whether two states hold values in the same places: the same number of
/// channels, and each slot and each channel value present in both or in
/// neither.
pub open spec fn same_presence<T>(a: State<T>, b: State<T>) -> bool {
    &&& a.channels.len() == b.channels.len()
    &&& a.psu_voltage.is_some() == b.psu_voltage.is_some()
    &&& a.fan_rpm.is_some() == b.fan_rpm.is_some()
    &&& a.ambient_temp.is_some() == b.ambient_temp.is_some()
    &&& a.power.is_some() == b.power.is_some()
    &&& forall|c: int|
        0 <= c < a.channels.len() ==> (#[trigger] a.channels[c]).raw.is_some()
            == b.channels[c].raw.is_some() && a.channels[c].filtered.is_some()
            == b.channels[c].filtered.is_some()
}

proof fn lemma_same_lines_concat<T>(
    a: Seq<Metric<T>>,
    b: Seq<Metric<T>>,
    c: Seq<Metric<T>>,
    d: Seq<Metric<T>>,
)
    requires
        same_lines(a, b),
        same_lines(c, d),
    ensures
        same_lines(a + c, b + d),
{
    assert forall|i: int| 0 <= i < (a + c).len() implies (#[trigger] (a + c)[i]).family == (b
        + d)[i].family && (a + c)[i].channel == (b + d)[i].channel by {
        if i < a.len() {
            assert((a + c)[i] == a[i]);
            assert((b + d)[i] == b[i]);
        } else {
            assert((a + c)[i] == c[i - a.len()]);
            assert((b + d)[i] == d[i - b.len()]);
        }
    }
}

proof fn lemma_series_same_lines<T>(
    family: Family,
    a: Seq<Channel<T>>,
    b: Seq<Channel<T>>,
    upto: int,
    at: u128,
    bt: u128,
)
    requires
        0 <= upto <= a.len(),
        a.len() == b.len(),
        forall|c: int|
            0 <= c < a.len() ==> (#[trigger] a[c]).raw.is_some() == b[c].raw.is_some()
                && a[c].filtered.is_some() == b[c].filtered.is_some(),
    ensures
        same_lines(array_metrics(family, a, upto, at), array_metrics(family, b, upto, bt)),
    decreases upto,
{
    if upto > 0 {
        lemma_series_same_lines(family, a, b, upto - 1, at, bt);
        assert(a[upto - 1].raw.is_some() == b[upto - 1].raw.is_some());
        lemma_same_lines_concat(
            array_metrics(family, a, upto - 1, at),
            array_metrics(family, b, upto - 1, bt),
            channel_metric(family, upto - 1, a[upto - 1], at),
            channel_metric(family, upto - 1, b[upto - 1], bt),
        );
    }
}

/// The order of the lines depends only on which values are present: two
/// states that hold values in the same places give the same series and
/// channels line by line, whatever the values, the offsets and the
/// timestamps.
pub proof fn lemma_line_order_fixed_by_presence<T>(a: State<T>, b: State<T>, at: u128, bt: u128)
    requires
        same_presence(a, b),
    ensures
        same_lines(metrics_of(a, at), metrics_of(b, bt)),
{
    let n = a.channels.len() as int;
    let a1 = scalar_metric(Family::ScopeVoltage, a.psu_voltage, at);
    let b1 = scalar_metric(Family::ScopeVoltage, b.psu_voltage, bt);
    let a2 = a1 + scalar_metric(Family::ScopeFanRpm, a.fan_rpm, at);
    let b2 = b1 + scalar_metric(Family::ScopeFanRpm, b.fan_rpm, bt);
    let a3 = a2 + scalar_metric(Family::AmbientTemperature, a.ambient_temp, at);
    let b3 = b2 + scalar_metric(Family::AmbientTemperature, b.ambient_temp, bt);
    let a4 = a3 + scalar_metric(Family::Power, a.power, at);
    let b4 = b3 + scalar_metric(Family::Power, b.power, bt);
    let a5 = a4 + array_metrics(Family::Temperature, a.channels, n, at);
    let b5 = b4 + array_metrics(Family::Temperature, b.channels, n, bt);
    let a6 = a5 + array_metrics(Family::TemperatureFiltered, a.channels, n, at);
    let b6 = b5 + array_metrics(Family::TemperatureFiltered, b.channels, n, bt);
    lemma_same_lines_concat(
        a1,
        b1,
        scalar_metric(Family::ScopeFanRpm, a.fan_rpm, at),
        scalar_metric(Family::ScopeFanRpm, b.fan_rpm, bt),
    );
    lemma_same_lines_concat(
        a2,
        b2,
        scalar_metric(Family::AmbientTemperature, a.ambient_temp, at),
        scalar_metric(Family::AmbientTemperature, b.ambient_temp, bt),
    );
    lemma_same_lines_concat(
        a3,
        b3,
        scalar_metric(Family::Power, a.power, at),
        scalar_metric(Family::Power, b.power, bt),
    );
    lemma_series_same_lines(Family::Temperature, a.channels, b.channels, n, at, bt);
    lemma_same_lines_concat(
        a4,
        b4,
        array_metrics(Family::Temperature, a.channels, n, at),
        array_metrics(Family::Temperature, b.channels, n, bt),
    );
    lemma_series_same_lines(Family::TemperatureFiltered, a.channels, b.channels, n, at, bt);
    lemma_same_lines_concat(
        a5,
        b5,
        array_metrics(Family::TemperatureFiltered, a.channels, n, at),
        array_metrics(Family::TemperatureFiltered, b.channels, n, bt),
    );
    lemma_series_same_lines(Family::TemperatureRaw, a.channels, b.channels, n, at, bt);
    lemma_same_lines_concat(
        a6,
        b6,
        array_metrics(Family::TemperatureRaw, a.channels, n, at),
        array_metrics(Family::TemperatureRaw, b.channels, n, bt),
    );
}

/// Whether `metric` is an entry of series `family` for a channel below
/// `upto` that holds the value the series shows.
pub open spec fn entry_of_series<T>(
    metric: Metric<T>,
    family: Family,
    channels: Seq<Channel<T>>,
    upto: int,
) -> bool {
    &&& metric.family == family
    &&& metric.channel matches Some(id)
    &&& id < upto
    &&& if family == Family::TemperatureFiltered {
        channels[id as int].filtered == Some(metric.value)
    } else {
        channels[id as int].raw == Some(metric.value)
    }
}

/// A series lists only channels that hold a value, each once, by rising
/// channel id.
pub proof fn lemma_series_sorted<T>(
    family: Family,
    channels: Seq<Channel<T>>,
    upto: int,
    timestamp: u128,
)
    requires
        0 <= upto <= channels.len() <= usize::MAX,
    ensures
        forall|i: int|
            0 <= i < array_metrics(family, channels, upto, timestamp).len() ==> entry_of_series(
                #[trigger] array_metrics(family, channels, upto, timestamp)[i],
                family,
                channels,
                upto,
            ),
        forall|i: int, j: int|
            0 <= i < j < array_metrics(family, channels, upto, timestamp).len() ==> (
            #[trigger] array_metrics(family, channels, upto, timestamp)[i]).channel->0 < (
            #[trigger] array_metrics(family, channels, upto, timestamp)[j]).channel->0,
    decreases upto,
{
    if upto > 0 {
        lemma_series_sorted(family, channels, upto - 1, timestamp);
        let before = array_metrics(family, channels, upto - 1, timestamp);
        let added = channel_metric(family, upto - 1, channels[upto - 1], timestamp);
        let all = array_metrics(family, channels, upto, timestamp);
        assert(all == before + added);
        assert forall|i: int| 0 <= i < all.len() implies entry_of_series(
            #[trigger] all[i],
            family,
            channels,
            upto,
        ) by {
            if i < before.len() {
                assert(all[i] == before[i]);
                assert(entry_of_series(before[i], family, channels, upto - 1));
            } else {
                assert(all[i] == added[i - before.len()]);
            }
        }
        assert forall|i: int, j: int| 0 <= i < j < all.len() implies (#[trigger] all[i]).channel->0
            < (#[trigger] all[j]).channel->0 by {
            if j < before.len() {
                assert(all[i] == before[i]);
                assert(all[j] == before[j]);
            } else {
                assert(all[j] == added[j - before.len()]);
                assert(all[i] == before[i]);
                assert(entry_of_series(before[i], family, channels, upto - 1));
            }
        }
    }
}

/// Every line that names a channel belongs to a channel of the array that
/// holds the value shown; a channel without values has no line.
pub proof fn lemma_exported_channels_hold_values<T>(state: State<T>, timestamp: u128)
    requires
        state.channels.len() <= usize::MAX,
    ensures
        forall|i: int|
            0 <= i < metrics_of(state, timestamp).len() ==> (match (#[trigger] metrics_of(
                state,
                timestamp,
            )[i]).channel {
                Some(id) => id < state.channels.len() && (state.channels[id as int].raw.is_some()
                    || state.channels[id as int].filtered.is_some()),
                None => true,
            }),
{
    let n = state.channels.len() as int;
    let all = metrics_of(state, timestamp);
    let s1 = scalar_metric(Family::ScopeVoltage, state.psu_voltage, timestamp);
    let s2 = s1 + scalar_metric(Family::ScopeFanRpm, state.fan_rpm, timestamp);
    let s3 = s2 + scalar_metric(Family::AmbientTemperature, state.ambient_temp, timestamp);
    let s4 = s3 + scalar_metric(Family::Power, state.power, timestamp);
    let t = array_metrics(Family::Temperature, state.channels, n, timestamp);
    let f = array_metrics(Family::TemperatureFiltered, state.channels, n, timestamp);
    let r = array_metrics(Family::TemperatureRaw, state.channels, n, timestamp);
    lemma_series_sorted(Family::Temperature, state.channels, n, timestamp);
    lemma_series_sorted(Family::TemperatureFiltered, state.channels, n, timestamp);
    lemma_series_sorted(Family::TemperatureRaw, state.channels, n, timestamp);
    assert(all == s4 + t + f + r);
    assert forall|i: int| 0 <= i < all.len() implies match (#[trigger] all[i]).channel {
        Some(id) => id < state.channels.len() && (state.channels[id as int].raw.is_some()
            || state.channels[id as int].filtered.is_some()),
        None => true,
    } by {
        if i < s4.len() {
            assert(all[i] == s4[i]);
            assert(s4[i].channel.is_none());
        } else if i < s4.len() + t.len() {
            assert(all[i] == t[i - s4.len()]);
            assert(entry_of_series(t[i - s4.len()], Family::Temperature, state.channels, n));
        } else if i < s4.len() + t.len() + f.len() {
            assert(all[i] == f[i - s4.len() - t.len()]);
            assert(entry_of_series(
                f[i - s4.len() - t.len()],
                Family::TemperatureFiltered,
                state.channels,
                n,
            ));
        } else {
            assert(all[i] == r[i - s4.len() - t.len() - f.len()]);
            assert(entry_of_series(
                r[i - s4.len() - t.len() - f.len()],
                Family::TemperatureRaw,
                state.channels,
                n,
            ));
        }
    }
}

/// A channel for which no reading was stored since startup has no line in
/// the document, whatever else was written in the meantime.
pub proof fn lemma_unfed_channel_not_exported<T>(
    n: nat,
    fallback: T,
    writes: Seq<Write<T>>,
    channel: usize,
    timestamp: u128,
)
    requires
        n <= usize::MAX,
        forall|i: int| 0 <= i < writes.len() ==> !(#[trigger] writes[i]).feeds(channel as int),
    ensures
        forall|i: int|
            0 <= i < metrics_of(
                State::fresh(n, fallback).replay(writes, fallback),
                timestamp,
            ).len() ==> (#[trigger] metrics_of(
                State::fresh(n, fallback).replay(writes, fallback),
                timestamp,
            )[i]).channel != Some(channel),
{
    let state = State::fresh(n, fallback).replay(writes, fallback);
    lemma_replay_keeps_channel_count(State::fresh(n, fallback), writes, fallback);
    lemma_exported_channels_hold_values(state, timestamp);
    if channel < n {
        lemma_unfed_channel_stays_empty(n, fallback, writes, channel as int);
    }
}

/// The label of a line: the channel id for the array series, nothing for
/// the others.
pub open spec fn label_text(channel: Option<usize>) -> Seq<char> {
    match channel {
        Some(id) => "{channel=\""@ + decimal(id as nat) + "\"}"@,
        None => Seq::empty(),
    }
}

/// The line of `metric` when its value is written as `shown`: name, label,
/// value and timestamp, separated by single spaces and closed by a
/// newline.
pub open spec fn line_text<T>(metric: Metric<T>, shown: Seq<char>) -> Seq<char> {
    metric.family.name_text() + label_text(metric.channel) + " "@ + shown + " "@ + decimal(
        metric.timestamp as nat,
    ) + "\n"@
}

/// The document of `metrics`, the value of the `i`-th written as
/// `shown[i]`: one line each, in order.
pub open spec fn document_text<T>(metrics: Seq<Metric<T>>, shown: Seq<Seq<char>>) -> Seq<char>
    recommends
        metrics.len() == shown.len(),
    decreases metrics.len(),
{
    if metrics.len() == 0 {
        Seq::empty()
    } else {
        document_text(metrics.drop_last(), shown.drop_last()) + line_text(
            metrics.last(),
            shown.last(),
        )
    }
}

/// The document does not show in which order two neighbouring writes to
/// different places arrived: with the same texts for the values, the two
/// histories give the same document, character for character.
pub proof fn lemma_document_forgets_write_order<T>(
    n: nat,
    fallback: T,
    before: Seq<Write<T>>,
    first: Write<T>,
    second: Write<T>,
    after: Seq<Write<T>>,
    timestamp: u128,
    shown: Seq<Seq<char>>,
)
    requires
        first.independent_of(second),
    ensures
        document_text(
            metrics_of(
                State::fresh(n, fallback).replay(before + seq![first, second] + after, fallback),
                timestamp,
            ),
            shown,
        ) == document_text(
            metrics_of(
                State::fresh(n, fallback).replay(before + seq![second, first] + after, fallback),
                timestamp,
            ),
            shown,
        ),
{
    lemma_history_order_is_forgotten(
        State::fresh(n, fallback),
        before,
        first,
        second,
        after,
        fallback,
    );
}

/// Appends the line of `metric` to `out`.
pub fn push_line<T>(out: &mut String, metric: &Metric<T>, shown: &str)
    ensures
        final(out)@ == old(out)@ + line_text(*metric, shown@),
{
    out.append(metric.family.name());
    match metric.channel {
        Some(id) => {
            out.append("{channel=\"");
            push_decimal(out, id as u128);
            out.append("\"}");
        },
        None => {},
    }
    out.append(" ");
    out.append(shown);
    out.append(" ");
    push_decimal(out, metric.timestamp);
    out.append("\n");
    assert(out@ =~= old(out)@ + line_text(*metric, shown@));
}

/// Writes the document of `metrics`, taking the text of the `i`-th value
/// from `shown[i]`. `None` when the two lists differ in length.
pub fn render<T>(metrics: &Vec<Metric<T>>, shown: &Vec<String>) -> (document: Option<String>)
    ensures
        document.is_some() == (metrics@.len() == shown@.len()),
        (match document {
            Some(text) => text@ == document_text(metrics@, shown.deep_view()),
            None => true,
        }),
{
    if metrics.len() != shown.len() {
        return None;
    }
    let mut text = String::new();
    let mut i: usize = 0;
    assert(text@ =~= document_text(metrics@.take(0), shown.deep_view().take(0)));
    while i < metrics.len()
        invariant
            i <= metrics@.len(),
            metrics@.len() == shown@.len(),
            text@ == document_text(metrics@.take(i as int), shown.deep_view().take(i as int)),
        decreases metrics@.len() - i,
    {
        push_line(&mut text, &metrics[i], shown[i].as_str());
        proof {
            let m = metrics@.take(i + 1);
            let s = shown.deep_view().take(i + 1);
            assert(m.drop_last() =~= metrics@.take(i as int));
            assert(s.drop_last() =~= shown.deep_view().take(i as int));
            assert(m.last() == metrics@[i as int]);
            assert(s.last() == shown@[i as int]@);
        }
        i = i + 1;
    }
    assert(metrics@.take(i as int) =~= metrics@);
    assert(shown.deep_view().take(i as int) =~= shown.deep_view());
    Some(text)
}

} // verus!
