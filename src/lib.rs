//! Preparation of indoor air-quality, occupancy and weather time series for
//! supervised learning: unification per location and minute, a continuity
//! filter on whole days, sliding windows, and reproducible folds.
pub mod days;
pub mod decode;
pub mod folds;
pub mod index;
pub mod pipeline;
pub mod readings;
pub mod time;
pub mod unify;
pub mod weather;
pub mod windows;

pub use days::{aggregate_by_date, day_retained, filter_days_by_gaps, find_gaps, DayRecords};
pub use decode::{get_slot_time, parse_i32, parse_location_sensor, parse_location_times, DecodeError, Quantity, SensedPeople, SensorLocation, LOCATION_COUNT};
pub use folds::{default_seed, fold_assignment, shuffle_and_split_into_folds, train_folds, FOLDS};
pub use pipeline::{has_distinct_times, location_windows, structure_data, Config, Structured};
pub use readings::{accumulate_readings, map_sensor_value, Sensor, SensorData, SensorValue};
pub use time::{parse_timestamp, Timestamp};
pub use unify::{merge_maps_updated, MergedRecord};
pub use weather::{interpolate_weather, interpolate_weather_points, ExactWeather, WeatherPoint};
pub use windows::{generate_windows, restructure_data_to_output, DayWindows, FeatureRow, WINDOW_SIZE};
