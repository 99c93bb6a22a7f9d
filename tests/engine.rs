use chrono::Datelike;
use iaq_windows::{
    aggregate_by_date, day_retained, default_seed, filter_days_by_gaps, find_gaps, generate_windows, has_distinct_times, interpolate_weather,
    interpolate_weather_points, merge_maps_updated, restructure_data_to_output, shuffle_and_split_into_folds, train_folds, DayRecords, DayWindows,
    MergedRecord, SensedPeople, Sensor, SensorLocation, Timestamp, WeatherPoint,
};

const DAY: i32 = 738_900;

fn point(t: i32) -> WeatherPoint {
    WeatherPoint {
        temperature: t,
        avg_temperature: t + 1,
        min_temperature: t - 1,
        max_temperature: t + 2,
        rel_humidity: 50_000,
        avg_rel_humidity: 51_000,
        min_rel_humidity: 49_000,
        max_rel_humidity: 52_000,
        precipitation: 0,
        wind_speed: 3_000,
    }
}

fn sensor(location: SensorLocation, co2: f32) -> Sensor<f32> {
    Sensor {
        location,
        dew_point: None,
        luminance: None,
        voc_index: None,
        co2: Some(co2),
        abs_humidity: None,
        rh: None,
        temperature: None,
        vec_eq_co2: None,
    }
}

fn record(minute: u32) -> MergedRecord<f32, u32> {
    MergedRecord {
        time: Timestamp { day: DAY, minute },
        sensor: sensor(SensorLocation::U11, minute as f32),
        people: SensedPeople { sensor_location: SensorLocation::U11, people: 0 },
        weather: minute,
    }
}

fn day_of(minutes: &[u32]) -> Vec<MergedRecord<f32, u32>> {
    minutes.iter().map(|&m| record(m)).collect()
}

#[test]
fn interpolation_fills_minutes_exactly() {
    let a = point(1000);
    let b = point(2000);
    let samples = vec![(Timestamp { day: DAY, minute: 600 }, a), (Timestamp { day: DAY, minute: 604 }, b)];
    let series = interpolate_weather(&samples);
    assert_eq!(series.len(), 5);
    assert_eq!(series[0].0.minute, 600);
    assert_eq!(series[0].1.temperature, 1000);
    assert_eq!(series[0].1.denominator, 1);
    for k in 1..4u32 {
        let (t, w) = series[k as usize];
        assert_eq!(t, Timestamp { day: DAY, minute: 600 + k });
        assert_eq!(w.denominator, 4);
        assert_eq!(w.temperature, 1000 * 4 + k as i128 * 1000);
        assert_eq!(w.temperature * 4 / w.denominator as i128, 4 * (1000 + 250 * k as i128));
        assert_eq!(w.avg_temperature, 1001 * 4 + k as i128 * 1000);
        assert_eq!(w.rel_humidity, 50_000 * 4);
    }
    assert_eq!(series[4].0.minute, 604);
    assert_eq!(series[4].1.temperature, 2000);
    assert_eq!(series[4].1.denominator, 1);
}

#[test]
fn interpolation_endpoints_match_the_samples() {
    let a = point(-300);
    let b = point(900);
    let at_start = interpolate_weather_points(&a, &b, 0, 6);
    assert_eq!(at_start.temperature, -300 * 6);
    let at_end = interpolate_weather_points(&a, &b, 6, 6);
    assert_eq!(at_end.temperature, 900 * 6);
    let middle = interpolate_weather_points(&a, &b, 3, 6);
    assert_eq!(middle.temperature, 300 * 6);
    assert_eq!(middle.denominator, 6);
}

#[test]
fn interpolation_crosses_midnight_and_skips_adjacent_samples() {
    let samples = vec![
        (Timestamp { day: DAY, minute: 1438 }, point(0)),
        (Timestamp { day: DAY + 1, minute: 1 }, point(300)),
        (Timestamp { day: DAY + 1, minute: 2 }, point(600)),
    ];
    let series = interpolate_weather(&samples);
    let times: Vec<Timestamp> = series.iter().map(|e| e.0).collect();
    assert_eq!(
        times,
        vec![
            Timestamp { day: DAY, minute: 1438 },
            Timestamp { day: DAY, minute: 1439 },
            Timestamp { day: DAY + 1, minute: 0 },
            Timestamp { day: DAY + 1, minute: 1 },
            Timestamp { day: DAY + 1, minute: 2 },
        ]
    );
    assert_eq!(series[1].1.temperature, 300);
    assert_eq!(series[1].1.denominator, 3);
    assert_eq!(series[2].1.temperature, 600);
}

#[test]
fn unification_joins_counts_and_weather() {
    let t = |m: u32| Timestamp { day: DAY, minute: m };
    let sensors = vec![
        (t(600), sensor(SensorLocation::U11, 400.0)),
        (t(600), sensor(SensorLocation::U4b, 500.0)),
        (t(601), sensor(SensorLocation::U11, 410.0)),
        (t(602), sensor(SensorLocation::U11, 420.0)),
        (t(200), sensor(SensorLocation::U11, 430.0)),
        (t(960), sensor(SensorLocation::U11, 440.0)),
    ];
    let people = vec![
        (t(600), SensedPeople { sensor_location: SensorLocation::U11, people: 7 }),
        (t(600), SensedPeople { sensor_location: SensorLocation::U11, people: 9 }),
        (t(601), SensedPeople { sensor_location: SensorLocation::U4b, people: 5 }),
    ];
    let weather = vec![(t(600), 1u32), (t(601), 2u32), (t(200), 3u32), (t(960), 4u32), (t(600), 5u32)];
    let merged = merge_maps_updated(&people, &sensors, &weather, 4, 16);
    assert_eq!(merged.len(), 8);
    let u11 = &merged[SensorLocation::U11.index()];
    assert_eq!(u11.len(), 2);
    assert_eq!(u11[0].time, t(600));
    assert_eq!(u11[0].people.people, 7);
    assert_eq!(u11[0].weather, 5);
    assert_eq!(u11[1].time, t(601));
    assert_eq!(u11[1].people, SensedPeople { sensor_location: SensorLocation::U11, people: 0 });
    assert_eq!(u11[1].weather, 2);
    let u4b = &merged[SensorLocation::U4b.index()];
    assert_eq!(u4b.len(), 1);
    assert_eq!(u4b[0].people.people, 0);
    assert!(merged[SensorLocation::Hodnik.index()].is_empty());
    for list in &merged {
        assert!(has_distinct_times(list));
    }
}

#[test]
fn distinctness_check_sees_repeated_minutes() {
    assert!(has_distinct_times(&day_of(&[240, 241, 300])));
    assert!(!has_distinct_times(&day_of(&[240, 241, 240])));
}

#[test]
fn gaps_of_a_day() {
    let full: Vec<u32> = (240..960).collect();
    assert_eq!(find_gaps(&day_of(&full), 240, 960), vec![(959, 960)]);
    let through_end: Vec<u32> = (240..961).collect();
    assert!(find_gaps(&day_of(&through_end), 240, 960).is_empty());
    assert!(day_retained(&day_of(&full), 240, 960, 2));
    let gaps = find_gaps(&day_of(&[240, 245, 246, 950]), 240, 960);
    assert_eq!(gaps, vec![(240, 245), (246, 950), (950, 960)]);
    assert_eq!(find_gaps(&day_of(&[]), 240, 960), vec![(240, 960)]);
}

#[test]
fn a_two_minute_gap_is_tolerated_a_three_minute_gap_is_not() {
    let mut one_missing: Vec<u32> = (240..960).collect();
    one_missing.retain(|&m| m != 500);
    assert!(day_retained(&day_of(&one_missing), 240, 960, 2));
    let mut two_missing: Vec<u32> = (240..960).collect();
    two_missing.retain(|&m| m != 500 && m != 501);
    assert!(!day_retained(&day_of(&two_missing), 240, 960, 2));
    let late_start: Vec<u32> = (243..960).collect();
    assert!(!day_retained(&day_of(&late_start), 240, 960, 2));
    let early_end: Vec<u32> = (240..959).collect();
    assert!(day_retained(&day_of(&early_end), 240, 960, 2));
    let earlier_end: Vec<u32> = (240..958).collect();
    assert!(!day_retained(&day_of(&earlier_end), 240, 960, 2));
}

#[test]
fn rejected_days_are_dropped_whole() {
    let good: Vec<u32> = (240..960).collect();
    let mut bad: Vec<u32> = (240..960).collect();
    bad.retain(|&m| !(600..605).contains(&m));
    let days = vec![
        DayRecords { day: DAY, records: day_of(&good) },
        DayRecords { day: DAY + 1, records: day_of(&bad) },
        DayRecords { day: DAY + 2, records: day_of(&good) },
    ];
    let kept = filter_days_by_gaps(days, 240, 960, 2);
    assert_eq!(kept.len(), 2);
    assert_eq!(kept[0].day, DAY);
    assert_eq!(kept[1].day, DAY + 2);
    assert_eq!(kept[1].records.len(), 720);
}

#[test]
fn records_are_grouped_by_day_in_minute_order() {
    let mut recs = day_of(&[300, 241, 240]);
    let mut other = record(500);
    other.time.day = DAY - 1;
    recs.push(other);
    let groups = aggregate_by_date(&recs);
    assert_eq!(groups.len(), 2);
    assert_eq!(groups[0].day, DAY - 1);
    assert_eq!(groups[0].records.len(), 1);
    assert_eq!(groups[1].day, DAY);
    let minutes: Vec<u32> = groups[1].records.iter().map(|r| r.time.minute).collect();
    assert_eq!(minutes, vec![240, 241, 300]);
}

#[test]
fn window_counts_at_the_boundary() {
    let recs185 = day_of(&(240..425).collect::<Vec<u32>>());
    let windows = generate_windows(&recs185, 180);
    assert_eq!(windows.len(), 5);
    for (i, w) in windows.iter().enumerate() {
        assert_eq!(w.len(), 180);
        assert_eq!(w[0].time.minute, 240 + i as u32);
        assert_eq!(w[179].time.minute, 240 + i as u32 + 179);
    }
    assert_eq!(generate_windows(&day_of(&(240..420).collect::<Vec<u32>>()), 180).len(), 0);
    assert_eq!(generate_windows(&day_of(&(240..421).collect::<Vec<u32>>()), 180).len(), 1);
    assert_eq!(generate_windows(&day_of(&[240, 241]), 180).len(), 0);
}

#[test]
fn rows_carry_window_ids_and_calendar() {
    let recs = day_of(&[240, 241, 242, 243]);
    let mut recs_missing = recs.clone();
    recs_missing[1].sensor.co2 = None;
    recs_missing[1].people.people = 6;
    let day_a = DayWindows { location: SensorLocation::U11, day: DAY, records: recs.clone(), windows: generate_windows(&recs_missing, 2) };
    let day_b = DayWindows { location: SensorLocation::U11, day: DAY + 40, records: recs.clone(), windows: generate_windows(&recs, 3) };
    let rows = restructure_data_to_output(&vec![day_a, day_b], -1.0f32).unwrap();
    assert_eq!(rows.len(), 2);
    assert_eq!(rows[0].len(), 4);
    let ids: Vec<u64> = rows[0].iter().map(|r| r.window_id).collect();
    assert_eq!(ids, vec![1, 1, 2, 2]);
    assert_eq!(rows[0][1].co2, -1.0);
    assert_eq!(rows[0][1].people, 6);
    assert_eq!(rows[0][0].co2, 240.0);
    assert_eq!(rows[0][0].dew_point, -1.0);
    assert_eq!(rows[0][0].time, 240);
    assert_eq!(rows[0][0].weather, 240);
    let ids_b: Vec<u64> = rows[1].iter().map(|r| r.window_id).collect();
    assert_eq!(ids_b, vec![3, 3, 3]);
    let date = chrono::NaiveDate::from_num_days_from_ce_opt(DAY).unwrap();
    let month = date.month() as usize;
    for k in 0..12 {
        assert_eq!(rows[0][0].months[k], k + 1 == month);
    }
    assert_eq!(rows[0][0].day, date.day());
}

#[test]
fn rows_refuse_days_outside_the_calendar() {
    let recs = day_of(&[240, 241, 242]);
    let day = DayWindows { location: SensorLocation::U11, day: i32::MAX, records: recs.clone(), windows: generate_windows(&recs, 1) };
    assert!(restructure_data_to_output(&vec![day], 0.0f32).is_none());
}

#[test]
fn folds_partition_the_groups() {
    let groups: Vec<usize> = (0..25).collect();
    let folds = shuffle_and_split_into_folds(groups.clone(), 10, default_seed());
    assert_eq!(folds.len(), 10);
    for f in 0..9 {
        assert_eq!(folds[f].len(), 2);
    }
    assert_eq!(folds[9].len(), 7);
    let mut all: Vec<usize> = folds.iter().flatten().copied().collect();
    let order = all.clone();
    all.sort();
    assert_eq!(all, groups);
    assert_ne!(order, groups);
    let total: usize = folds.iter().map(|f| f.len()).sum();
    assert_eq!(total, 25);
    for g in 0..25 {
        let tests = folds.iter().filter(|f| f.contains(&g)).count();
        assert_eq!(tests, 1);
        let trains = (0..10).filter(|&f| folds.iter().enumerate().any(|(h, fold)| h != f && fold.contains(&g))).count();
        assert_eq!(trains, 9);
    }
}

#[test]
fn folds_are_reproducible() {
    let groups: Vec<String> = (0..37).map(|i| format!("group {}", i)).collect();
    let a = shuffle_and_split_into_folds(groups.clone(), 10, default_seed());
    let b = shuffle_and_split_into_folds(groups.clone(), 10, default_seed());
    assert_eq!(a, b);
    let c = shuffle_and_split_into_folds(groups, 10, [7u8; 32]);
    assert_ne!(a, c);
}

#[test]
fn fewer_groups_than_folds_go_to_the_last_fold() {
    let folds = shuffle_and_split_into_folds(vec!['a', 'b', 'c'], 10, default_seed());
    assert_eq!(folds.len(), 10);
    assert!(folds[..9].iter().all(|f| f.is_empty()));
    assert_eq!(folds[9].len(), 3);
    let empty = shuffle_and_split_into_folds(Vec::<u8>::new(), 4, default_seed());
    assert!(empty.iter().all(|f| f.is_empty()));
}

#[test]
fn train_sets_are_the_other_folds() {
    assert_eq!(train_folds(4, 0), vec![1, 2, 3]);
    assert_eq!(train_folds(4, 2), vec![0, 1, 3]);
    assert_eq!(train_folds(1, 0), Vec::<usize>::new());
    assert_eq!(train_folds(10, 9).len(), 9);
}
