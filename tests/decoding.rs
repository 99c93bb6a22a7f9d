use chrono::{Datelike, NaiveDate};
use iaq_windows::{
    accumulate_readings, get_slot_time, parse_i32, map_sensor_value, parse_location_sensor, parse_location_times, parse_timestamp, DecodeError,
    SensedPeople, SensorData, SensorLocation, SensorValue, Timestamp,
};

fn day_number(y: i32, m: u32, d: u32) -> i32 {
    NaiveDate::from_ymd_opt(y, m, d).unwrap().num_days_from_ce()
}

#[test]
fn slot_expansion_gives_one_fact_per_minute() {
    let facts = SensedPeople::from(Some("2023-03-06"), Some("3"), Some("U4B"), Some("12")).unwrap();
    assert_eq!(facts.len(), 70);
    let day = day_number(2023, 3, 6);
    for (i, (t, p)) in facts.iter().enumerate() {
        assert_eq!(*t, Timestamp { day, minute: 580 + i as u32 });
        assert_eq!(p.sensor_location, SensorLocation::U4b);
        assert_eq!(p.people, 12);
    }
}

#[test]
fn every_slot_has_its_documented_length() {
    let lengths = [30usize, 50, 50, 70, 50, 50, 50, 50, 45];
    let starts = [450u32, 480, 530, 580, 650, 700, 750, 800, 850];
    for slot in 0..9 {
        let text = format!("{}", slot);
        let facts = SensedPeople::from(Some("2023-05-02"), Some(text.as_str()), Some("U11"), Some("3")).unwrap();
        assert_eq!(facts.len(), lengths[slot]);
        assert_eq!(facts[0].0.minute, starts[slot]);
        assert!(facts.iter().all(|(_, p)| p.sensor_location == SensorLocation::U11 && p.people == 3));
    }
}

#[test]
fn slot_time_and_minutes() {
    let (start, len) = get_slot_time(Some("2023-01-09"), Some("8")).unwrap();
    assert_eq!(start, Timestamp { day: day_number(2023, 1, 9), minute: 850 });
    assert_eq!(len, 45);
    let minutes = parse_location_times(Some("2023-01-09"), Some("0")).unwrap();
    assert_eq!(minutes.len(), 30);
    assert_eq!(minutes[29].minute, 479);
}

#[test]
fn timetable_rows_that_are_refused() {
    assert_eq!(SensedPeople::from(None, Some("1"), Some("U11"), Some("4")), Err(DecodeError::Missing));
    assert_eq!(SensedPeople::from(Some("2023-01-09"), None, Some("U11"), Some("4")), Err(DecodeError::Missing));
    assert_eq!(SensedPeople::from(Some("2023-01-09"), Some("9"), Some("U11"), Some("4")), Err(DecodeError::UnknownSlot));
    assert_eq!(SensedPeople::from(Some("2023-01-09"), Some("x"), Some("U11"), Some("4")), Err(DecodeError::UnknownSlot));
    assert_eq!(SensedPeople::from(Some("09.01.2023"), Some("1"), Some("U11"), Some("4")), Err(DecodeError::BadTime));
    assert_eq!(SensedPeople::from(Some("2023-01-09"), Some("1"), Some("U99"), Some("4")), Err(DecodeError::UnknownLocation));
    assert_eq!(SensedPeople::from(Some("2023-01-09"), Some("1"), None, Some("4")), Err(DecodeError::Missing));
    assert_eq!(SensedPeople::from(Some("2023-01-09"), Some("1"), Some("U11"), Some("four")), Err(DecodeError::BadNumber));
    assert_eq!(SensedPeople::from(Some("2023-01-09"), Some("1"), Some("U11"), None), Err(DecodeError::Missing));
}

#[test]
fn room_codes() {
    assert_eq!(parse_location_sensor(Some("U18")), Ok(SensorLocation::Soba18));
    assert_eq!(parse_location_sensor(Some("U3A")), Ok(SensorLocation::U3a));
    assert_eq!(parse_location_sensor(Some("U4C")), Ok(SensorLocation::U4c));
    assert_eq!(parse_location_sensor(Some("u4c")), Err(DecodeError::UnknownLocation));
    assert_eq!(parse_location_sensor(None), Err(DecodeError::Missing));
}

#[test]
fn sensor_row_decodes() {
    let (t, d) = SensorData::from(Some("2023-01-10T08:15:00Z"), Some("co2"), Some("aj-03"), Some(512.5f32)).unwrap();
    assert_eq!(t, Timestamp { day: day_number(2023, 1, 10), minute: 495 });
    assert_eq!(d.sensor_location, SensorLocation::Hodnik);
    assert!(matches!(d.value, SensorValue::Co2(v) if v == 512.5));
    let (_, d) = SensorData::from(Some("2023-01-10T08:15:00Z"), Some("RH"), Some("aj-07"), Some(40.0f32)).unwrap();
    assert_eq!(d.sensor_location, SensorLocation::Zbornica);
    assert!(matches!(d.value, SensorValue::Rh(v) if v == 40.0));
}

#[test]
fn sensor_rows_that_are_refused() {
    let t = Some("2023-01-10T08:15:00Z");
    assert_eq!(SensorData::from(None, Some("co2"), Some("aj-00"), Some(1.0f32)).err(), Some(DecodeError::Missing));
    assert_eq!(SensorData::from(Some("2023-01-10 08:15"), Some("co2"), Some("aj-00"), Some(1.0f32)).err(), Some(DecodeError::BadTime));
    assert_eq!(SensorData::from(Some("2023-01-10T08:15:30Z"), Some("co2"), Some("aj-00"), Some(1.0f32)).err(), Some(DecodeError::BadTime));
    assert_eq!(SensorData::from(t, None, Some("aj-00"), Some(1.0f32)).err(), Some(DecodeError::Missing));
    assert_eq!(SensorData::from(t, Some("co2"), Some("aj-08"), Some(1.0f32)).err(), Some(DecodeError::UnknownLocation));
    assert_eq!(SensorData::from(t, Some("co2"), None, Some(1.0f32)).err(), Some(DecodeError::Missing));
    assert_eq!(SensorData::from(t, Some("co2"), Some("aj-00"), None::<f32>).err(), Some(DecodeError::Missing));
    assert_eq!(SensorData::from(t, Some("pm10"), Some("aj-00"), Some(1.0f32)).err(), Some(DecodeError::UnknownQuantity));
}

#[test]
fn quantity_names() {
    assert!(matches!(map_sensor_value("dew_point", 1i32), Ok(SensorValue::DewPoint(1))));
    assert!(matches!(map_sensor_value("voc_eq_co2", 2i32), Ok(SensorValue::VecEqCo2(2))));
    assert!(matches!(map_sensor_value("abs_humidity", 3i32), Ok(SensorValue::AbsHumidity(3))));
    assert!(map_sensor_value("Temperature", 4i32).is_err());
}

#[test]
fn timestamps_parse_to_day_and_minute() {
    let t = parse_timestamp("2023-06-30 23:59", "%Y-%m-%d %H:%M").unwrap();
    assert_eq!(t, Timestamp { day: day_number(2023, 6, 30), minute: 1439 });
    assert_eq!(parse_timestamp("2023-06-31 10:00", "%Y-%m-%d %H:%M"), None);
}

#[test]
fn readings_accumulate_into_snapshots() {
    let t1 = Timestamp { day: 738000, minute: 600 };
    let t2 = Timestamp { day: 738000, minute: 601 };
    let rows = vec![
        (t1, SensorData { sensor_location: SensorLocation::U11, value: SensorValue::Co2(400.0f32) }),
        (t1, SensorData { sensor_location: SensorLocation::U4b, value: SensorValue::Co2(500.0f32) }),
        (t1, SensorData { sensor_location: SensorLocation::U11, value: SensorValue::Rh(35.0f32) }),
        (t2, SensorData { sensor_location: SensorLocation::U11, value: SensorValue::Co2(410.0f32) }),
        (t1, SensorData { sensor_location: SensorLocation::U11, value: SensorValue::Co2(405.0f32) }),
    ];
    let snaps = accumulate_readings(&rows);
    assert_eq!(snaps.len(), 3);
    assert_eq!(snaps[0].0, t1);
    assert_eq!(snaps[0].1.location, SensorLocation::U11);
    assert_eq!(snaps[0].1.co2, Some(405.0));
    assert_eq!(snaps[0].1.rh, Some(35.0));
    assert_eq!(snaps[0].1.temperature, None);
    assert_eq!(snaps[1].1.location, SensorLocation::U4b);
    assert_eq!(snaps[1].1.co2, Some(500.0));
    assert_eq!(snaps[2].0, t2);
    assert_eq!(snaps[2].1.co2, Some(410.0));
}

#[test]
fn integers_parse_as_std_does() {
    let cases = [
        "0", "7", "+7", "-7", "-0", "007", "2147483647", "2147483648", "-2147483648", "-2147483649", "99999999999999999999", "", "-", "+",
        "12a", " 1", "1 ", "--1", "+-1", "\u{0661}",
    ];
    for c in cases {
        assert_eq!(parse_i32(c), c.parse::<i32>().ok(), "{}", c);
    }
    assert_eq!(parse_i32("-2147483648"), Some(i32::MIN));
    assert_eq!(parse_i32("+15"), Some(15));
}
