use iaq_windows::{
    accumulate_readings, merge_maps_updated, restructure_data_to_output, shuffle_and_split_into_folds, structure_data, Config, SensedPeople,
    SensorData, SensorLocation, SensorValue, Timestamp, FOLDS,
};

const DAY: i32 = 738_950;

fn reading(day: i32, minute: u32, location: SensorLocation, co2: f32) -> (Timestamp, SensorData<f32>) {
    (Timestamp { day, minute }, SensorData { sensor_location: location, value: SensorValue::Co2(co2) })
}

#[test]
fn three_locations_end_to_end() {
    let mut readings = Vec::new();
    for m in 240..960u32 {
        readings.push(reading(DAY, m, SensorLocation::U4c, 400.0 + m as f32));
        if !(600..605).contains(&m) {
            readings.push(reading(DAY, m, SensorLocation::U4b, 500.0));
        }
        readings.push(reading(DAY + 1, m, SensorLocation::U11, 600.0));
    }
    let weather: Vec<(Timestamp, u32)> = (0..1440u32).map(|m| (Timestamp { day: DAY, minute: m }, m)).collect();
    let people = vec![(Timestamp { day: DAY, minute: 480 }, SensedPeople { sensor_location: SensorLocation::U4c, people: 21 })];
    let snapshots = accumulate_readings(&readings);
    let merged = merge_maps_updated(&people, &snapshots, &weather, 4, 16);
    assert_eq!(merged[SensorLocation::U4c.index()].len(), 720);
    assert_eq!(merged[SensorLocation::U4b.index()].len(), 715);
    assert_eq!(merged[SensorLocation::U11.index()].len(), 0);
    let excluded = vec![SensorLocation::Jedilnica, SensorLocation::Hodnik, SensorLocation::Zbornica];
    let structured = structure_data(&merged, &excluded, Config::standard()).unwrap();
    assert_eq!(structured.rejected, vec![(SensorLocation::U4b, DAY)]);
    let days = structured.days;
    assert_eq!(days.len(), 1);
    assert_eq!(days[0].location, SensorLocation::U4c);
    assert_eq!(days[0].day, DAY);
    assert_eq!(days[0].windows.len(), 540);
    let rows = restructure_data_to_output(&days, 0.0f32).unwrap();
    assert_eq!(rows.len(), 1);
    assert_eq!(rows[0].len(), 540 * 180);
    assert_eq!(rows[0][0].window_id, 1);
    assert_eq!(rows[0][rows[0].len() - 1].window_id, 540);
    assert_eq!(rows[0][120 * 180 + 120].time, 480);
    assert_eq!(rows[0][120 * 180 + 120].window_id, 121);
    assert_eq!(rows[0][120 * 180 + 120].people, 21);
    assert_eq!(rows[0][0].people, 0);
    let folds = shuffle_and_split_into_folds(rows, FOLDS, iaq_windows::default_seed());
    assert_eq!(folds.len(), 10);
    assert_eq!(folds[9].len(), 1);
}

#[test]
fn excluded_locations_are_skipped() {
    let mut readings = Vec::new();
    for m in 240..960u32 {
        readings.push(reading(DAY, m, SensorLocation::Hodnik, 400.0));
        readings.push(reading(DAY, m, SensorLocation::Soba18, 400.0));
    }
    let weather: Vec<(Timestamp, u32)> = (0..1440u32).map(|m| (Timestamp { day: DAY, minute: m }, m)).collect();
    let merged = merge_maps_updated(&Vec::new(), &accumulate_readings(&readings), &weather, 4, 16);
    let structured = structure_data(&merged, &vec![SensorLocation::Hodnik], Config::standard()).unwrap();
    assert_eq!(structured.days.len(), 1);
    assert_eq!(structured.days[0].location, SensorLocation::Soba18);
    assert!(structured.rejected.is_empty());
    let all = structure_data(&merged, &Vec::new(), Config::standard()).unwrap();
    assert_eq!(all.days.len(), 2);
    assert_eq!(all.days[0].location, SensorLocation::Hodnik);
}

#[test]
fn standard_settings() {
    let c = Config::standard();
    assert_eq!((c.day_start, c.day_end, c.gap_tolerance, c.window_size), (240, 960, 2, 180));
}
