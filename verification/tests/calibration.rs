use bench_telemetry::calibration::{Action, CalibrationSession, Phase};
use bench_telemetry::store::MeasurementStore;
use std::collections::BTreeMap;

fn mean(samples: &Vec<f64>) -> f64 {
    samples.iter().sum::<f64>() / samples.len() as f64
}

fn run(session: &mut CalibrationSession<f64>, read: impl Fn(usize, usize) -> Option<f64>) -> usize {
    let mut reads = 0;
    let mut round_reads = vec![0usize; 64];
    let mut action = session.begin();
    while let Action::Read { channel } = action {
        let round = round_reads[channel];
        round_reads[channel] += 1;
        reads += 1;
        action = session.record(read(round, channel));
    }
    reads
}

#[test]
fn steady_campaign_gives_the_distance_to_the_target_for_every_channel() {
    let mut session = CalibrationSession::new(4, 20);
    let reads = run(&mut session, |_, _| Some(98.0));
    assert_eq!(reads, 80);
    assert_eq!(session.phase(), Phase::Reducing);
    let table = session.reduce(|samples| 100.0 - mean(samples)).unwrap();
    let expected: BTreeMap<usize, f64> = (0..4).map(|c| (c, 2.0)).collect();
    assert_eq!(table, expected);

    // Written out and read back, the table is the same.
    let written = serde_json::to_string_pretty(&table).unwrap();
    let reloaded: BTreeMap<usize, f64> = serde_json::from_str(&written).unwrap();
    assert_eq!(reloaded, table);

    assert_eq!(session.persisted(), Action::Finished);
    assert_eq!(session.phase(), Phase::Persisted);

    // At the next start the store shows the reference temperature.
    let mut store = MeasurementStore::new(4, 0.0);
    store.load_calibration(&reloaded);
    store.record(2, Some((98.0, 98.0)));
    let channels = store.snapshot().channels;
    assert_eq!(channels[2].raw.unwrap() + channels[2].offset, 100.0);
}

#[test]
fn calibration_table_survives_serialisation() {
    let mut table: BTreeMap<usize, f64> = BTreeMap::new();
    table.insert(0, 2.0);
    table.insert(1, -0.375);
    table.insert(7, 1.0e-3);
    table.insert(12, 0.1 + 0.2);
    let written = serde_json::to_string_pretty(&table).unwrap();
    let reloaded: BTreeMap<usize, f64> = serde_json::from_str(&written).unwrap();
    assert_eq!(reloaded, table);
    let again = serde_json::to_string_pretty(&reloaded).unwrap();
    assert_eq!(again, written);
}

#[test]
fn campaign_walks_through_its_phases() {
    let mut session: CalibrationSession<f64> = CalibrationSession::new(2, 2);
    assert_eq!(session.phase(), Phase::Idle);
    assert_eq!(session.pending(), Action::Start);
    assert_eq!(session.begin(), Action::Read { channel: 0 });
    assert_eq!(session.phase(), Phase::Sampling { round: 0, channel: 0 });
    assert_eq!(session.record(Some(20.0)), Action::Read { channel: 1 });
    assert_eq!(session.phase(), Phase::Sampling { round: 0, channel: 1 });
    assert_eq!(session.record(Some(21.0)), Action::Read { channel: 0 });
    assert_eq!(session.phase(), Phase::Sampling { round: 1, channel: 0 });
    assert_eq!(session.record(Some(22.0)), Action::Read { channel: 1 });
    assert_eq!(session.record(Some(23.0)), Action::Reduce);
    assert_eq!(session.phase(), Phase::Reducing);
    assert_eq!(session.pending(), Action::Reduce);
    assert_eq!(session.persisted(), Action::Finished);
    assert_eq!(session.phase(), Phase::Persisted);
    assert_eq!(session.pending(), Action::Finished);
}

#[test]
fn reducer_sees_the_samples_of_each_channel_in_order() {
    let mut session = CalibrationSession::new(2, 3);
    run(&mut session, |round, channel| Some((10 * channel + round) as f64));
    let firsts = session.reduce(|samples| samples[0]).unwrap();
    let lasts = session.reduce(|samples| samples[samples.len() - 1]).unwrap();
    let counts = session.reduce(|samples| samples.len() as f64).unwrap();
    assert_eq!(firsts.get(&0), Some(&0.0));
    assert_eq!(firsts.get(&1), Some(&10.0));
    assert_eq!(lasts.get(&0), Some(&2.0));
    assert_eq!(lasts.get(&1), Some(&12.0));
    assert_eq!(counts.get(&0), Some(&3.0));
    assert_eq!(counts.get(&1), Some(&3.0));
}

#[test]
fn channel_that_never_answers_is_left_out_of_the_table() {
    let mut session = CalibrationSession::new(3, 20);
    let reads = run(&mut session, |_, channel| if channel == 1 { None } else { Some(98.0) });
    assert_eq!(reads, 60);
    let table = session.reduce(|samples| 100.0 - mean(samples)).unwrap();
    assert_eq!(table.len(), 2);
    assert_eq!(table.get(&0), Some(&2.0));
    assert_eq!(table.get(&1), None);
    assert_eq!(table.get(&2), Some(&2.0));

    // Loading the new table resets the offset of the silent channel.
    let mut store = MeasurementStore::new(3, 0.0);
    let mut previous = BTreeMap::new();
    previous.insert(1, 5.0);
    store.load_calibration(&previous);
    store.load_calibration(&table);
    let offsets: Vec<f64> = store.snapshot().channels.iter().map(|c| c.offset).collect();
    assert_eq!(offsets, vec![2.0, 0.0, 2.0]);
}

#[test]
fn failed_reads_are_skipped_not_counted_as_zero() {
    let mut session = CalibrationSession::new(1, 4);
    run(&mut session, |round, _| if round % 2 == 0 { Some(98.0) } else { None });
    let counts = session.reduce(|samples| samples.len() as f64).unwrap();
    assert_eq!(counts.get(&0), Some(&2.0));
    let table = session.reduce(|samples| 100.0 - mean(samples)).unwrap();
    assert_eq!(table.get(&0), Some(&2.0));
}

#[test]
fn campaign_without_channels_or_rounds_goes_straight_to_reduction() {
    let mut empty: CalibrationSession<f64> = CalibrationSession::new(0, 20);
    assert_eq!(empty.begin(), Action::Reduce);
    assert_eq!(empty.reduce(|samples| mean(samples)).unwrap().len(), 0);

    let mut idle: CalibrationSession<f64> = CalibrationSession::new(3, 0);
    assert_eq!(idle.begin(), Action::Reduce);
    assert_eq!(idle.reduce(|samples| mean(samples)).unwrap().len(), 0);
}

#[test]
fn table_is_only_derived_in_the_reduction_phase() {
    let mut session = CalibrationSession::new(1, 1);
    assert!(session.reduce(|samples| mean(samples)).is_none());
    session.begin();
    assert!(session.reduce(|samples| mean(samples)).is_none());
    session.record(Some(98.0));
    assert!(session.reduce(|samples| mean(samples)).is_some());
    session.persisted();
    assert!(session.reduce(|samples| mean(samples)).is_none());
}

#[test]
fn events_out_of_turn_change_nothing() {
    let mut session = CalibrationSession::new(1, 2);
    // A reading or a persist notice before the start.
    assert_eq!(session.record(Some(1.0)), Action::Start);
    assert_eq!(session.persisted(), Action::Start);
    assert_eq!(session.phase(), Phase::Idle);
    session.begin();
    // A second start or a persist notice while sampling.
    assert_eq!(session.begin(), Action::Read { channel: 0 });
    assert_eq!(session.persisted(), Action::Read { channel: 0 });
    assert_eq!(session.phase(), Phase::Sampling { round: 0, channel: 0 });
    session.record(Some(98.0));
    session.record(Some(98.0));
    // A reading after the last round.
    assert_eq!(session.record(Some(50.0)), Action::Reduce);
    let counts = session.reduce(|samples| samples.len() as f64).unwrap();
    assert_eq!(counts.get(&0), Some(&2.0));
    session.persisted();
    assert_eq!(session.begin(), Action::Finished);
    assert_eq!(session.record(Some(50.0)), Action::Finished);
    assert_eq!(session.phase(), Phase::Persisted);
}
