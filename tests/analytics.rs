use weather_analytics::analysis::find_anomalies_in;
use weather_analytics::csv::export_to_csv;
use weather_analytics::interpolate::{fill_time_gaps, interpolate_points};
use weather_analytics::oracle::hash_input;
use weather_analytics::point::WeatherDataPoint;
use weather_analytics::prediction::{
    cross_validation_folds, feature_names, split_fold, validate_training_data, validate_update_data,
    z_score_milli, PredictionError,
    PredictionFeatures,
};
use weather_analytics::stats::{calculate_trend, summarize_points, Ratio};
use weather_analytics::store::DataProcessor;

fn point(location: &str, timestamp: i64, temperature: i32) -> WeatherDataPoint {
    WeatherDataPoint {
        timestamp,
        location: location.to_string(),
        temperature,
        humidity: 5000,
        pressure: 101325,
        wind_speed: 300,
        wind_direction: 9000,
        precipitation: 10,
    }
}

fn features(base: i32) -> PredictionFeatures {
    PredictionFeatures {
        temperature: base,
        humidity: base * 2,
        pressure: base + 7,
        wind_speed: base * 3,
        wind_direction: base - 1,
        historical_avg_temp: base * 5,
        seasonal_factor: base + 11,
        location_latitude: base * 7,
        location_longitude: base - 13,
    }
}

#[test]
fn summary_of_three_points() {
    let mut store = DataProcessor::new();
    for (i, t) in [10, 20, 30].iter().enumerate() {
        assert!(store.add_data_point(point("NYC", i as i64, *t)));
    }
    let s = store.process_location_data(&"NYC".to_string()).unwrap();
    assert_eq!(s.average_temperature, Ratio { numerator: 60, denominator: 3 });
    assert_eq!(s.max_temperature, 30);
    assert_eq!(s.min_temperature, 10);
    let t = s.temperature_trend;
    assert!(t.denominator > 0);
    assert_eq!(t.numerator, 10 * t.denominator);
    assert_eq!(s.data_points, 3);
    assert_eq!(s.location, "NYC");
    assert_eq!(s.humidity_average, Ratio { numerator: 15000, denominator: 3 });
    assert_eq!(s.pressure_average, Ratio { numerator: 303975, denominator: 3 });
    assert_eq!(s.wind_average, Ratio { numerator: 900, denominator: 3 });
    assert_eq!(s.precipitation_total, 30);
}

#[test]
fn summary_of_unknown_location_is_absent() {
    let mut store = DataProcessor::new();
    store.add_data_point(point("NYC", 0, 1));
    assert!(store.process_location_data(&"LA".to_string()).is_none());
    assert!(DataProcessor::new().process_location_data(&"NYC".to_string()).is_none());
}

#[test]
fn mean_is_exact_and_between_extremes() {
    let data = vec![point("X", 0, -1), point("X", 1, -2)];
    let s = summarize_points(&data);
    assert_eq!(s.average_temperature, Ratio { numerator: -3, denominator: 2 });
    let a = s.average_temperature;
    assert!(s.min_temperature as i128 * a.denominator <= a.numerator);
    assert!(a.numerator <= s.max_temperature as i128 * a.denominator);
    let half = summarize_points(&vec![point("X", 0, 0), point("X", 1, 1)]);
    assert_eq!(half.average_temperature, Ratio { numerator: 1, denominator: 2 });
}

#[test]
fn trend_of_linear_and_constant_series() {
    let linear: Vec<WeatherDataPoint> = (0..50).map(|i| point("X", i as i64, i)).collect();
    let t = calculate_trend(&linear);
    assert_eq!(t.numerator, t.denominator);
    let constant: Vec<WeatherDataPoint> = (0..50).map(|i| point("X", i as i64, 42)).collect();
    assert_eq!(calculate_trend(&constant).numerator, 0);
    let single = vec![point("X", 0, 5)];
    assert_eq!(calculate_trend(&single), Ratio { numerator: 0, denominator: 1 });
    let descending: Vec<WeatherDataPoint> = (0..7).map(|i| point("X", i as i64, 100 - 3 * i)).collect();
    let d = calculate_trend(&descending);
    assert_eq!(d.numerator, -3 * d.denominator);
    let one = calculate_trend(&vec![point("X", 0, 0), point("X", 1, 0), point("X", 2, 1)]);
    let two = calculate_trend(&vec![point("X", 0, 0), point("X", 1, 0), point("X", 2, 2)]);
    assert_eq!(two.numerator * one.denominator, 2 * one.numerator * two.denominator);
    assert_eq!(one.numerator * 2, one.denominator);
}

#[test]
fn anomalies_need_ten_points() {
    let mut data: Vec<WeatherDataPoint> = (0..9).map(|i| point("X", i as i64, 100)).collect();
    data[8].temperature = 100000;
    assert!(find_anomalies_in(&data, 0).is_empty());
    assert!(find_anomalies_in(&data, 100).is_empty());
}

#[test]
fn anomaly_found_among_ten_points() {
    let mut data: Vec<WeatherDataPoint> = (0..10).map(|i| point("X", i as i64, 100)).collect();
    data[4].temperature = 5000;
    let found = find_anomalies_in(&data, 200);
    assert_eq!(found.len(), 1);
    assert_eq!(found[0].timestamp, 4);
    assert!(find_anomalies_in(&data, 400).is_empty());
    assert_eq!(find_anomalies_in(&data, -1).len(), 10);
    let flat: Vec<WeatherDataPoint> = (0..10).map(|i| point("X", i as i64, 7)).collect();
    assert!(find_anomalies_in(&flat, -1).is_empty());
    assert!(find_anomalies_in(&flat, 0).is_empty());
    let mut store = DataProcessor::new();
    store.add_batch_data(data);
    assert_eq!(store.find_anomalies(&"X".to_string(), 200).len(), 1);
    assert!(store.find_anomalies(&"Y".to_string(), 200).is_empty());
}

#[test]
fn interpolation_fills_hourly_gaps() {
    let mut late = point("X", 3 * 3600, 400);
    late.humidity = 8000;
    late.wind_direction = 18000;
    late.precipitation = 50;
    let early = point("X", 0, 100);
    let out = interpolate_points(&vec![late, early]);
    let times: Vec<i64> = out.iter().map(|p| p.timestamp).collect();
    assert_eq!(times, vec![0, 3600, 7200, 10800]);
    let temps: Vec<i32> = out.iter().map(|p| p.temperature).collect();
    assert_eq!(temps, vec![100, 200, 300, 400]);
    assert_eq!(out[1].humidity, 6000);
    assert_eq!(out[2].humidity, 7000);
    assert_eq!(out[1].wind_direction, 9000);
    assert_eq!(out[2].precipitation, 0);
    assert_eq!(out[3].precipitation, 50);
    for w in out.windows(2) {
        assert!(w[0].timestamp <= w[1].timestamp);
        assert!(w[1].timestamp - w[0].timestamp <= 3600);
    }
}

#[test]
fn interpolation_leaves_short_gaps_and_small_inputs() {
    let out = fill_time_gaps(&vec![point("X", 0, 1), point("X", 3600, 2)]);
    assert_eq!(out.len(), 2);
    let one = interpolate_points(&vec![point("X", 7, 3)]);
    assert_eq!(one.len(), 1);
    assert_eq!(one[0].timestamp, 7);
    assert!(interpolate_points(&Vec::new()).is_empty());
    let store = DataProcessor::new();
    assert!(store.interpolate_missing_data(&"X".to_string()).is_empty());
}

#[test]
fn csv_export_text() {
    let p = WeatherDataPoint {
        timestamp: -5,
        location: "NYC".to_string(),
        temperature: 2150,
        humidity: -3,
        pressure: 0,
        wind_speed: 7,
        wind_direction: 180,
        precipitation: 12,
    };
    let text = export_to_csv(&vec![p]);
    assert_eq!(
        text,
        "timestamp,location,temperature,humidity,pressure,wind_speed,wind_direction,precipitation\n-5,NYC,21.50,-0.03,0.00,0.07,1.80,0.12\n"
    );
}

#[test]
fn csv_round_trip_keeps_time_and_temperature() {
    let mut store = DataProcessor::new();
    let pts = vec![point("Oslo", 100, -250), point("Oslo", 50, 1999), point("Oslo", i64::MIN, i32::MAX)];
    store.add_batch_data(pts.clone());
    let text = store.export_csv(&"Oslo".to_string()).unwrap();
    let mut parsed: Vec<(i64, i32)> = text
        .lines()
        .skip(1)
        .map(|l| {
            let f: Vec<&str> = l.split(',').collect();
            let t: f64 = f[2].parse().unwrap();
            (f[0].parse().unwrap(), (t * 100.0).round() as i32)
        })
        .collect();
    let mut expected: Vec<(i64, i32)> = pts.iter().map(|p| (p.timestamp, p.temperature)).collect();
    parsed.sort();
    expected.sort();
    assert_eq!(parsed, expected);
    assert!(store.export_csv(&"Rome".to_string()).is_none());
}

#[test]
fn store_batches_prunes_and_counts() {
    let mut store = DataProcessor::new();
    let refused = store.add_batch_data(vec![point("A", 100, 1), point("B", 200, 2), point("A", 300, 3)]);
    assert_eq!(refused, 0);
    let summary = store.get_location_summary();
    assert_eq!(summary, vec![("A".to_string(), 2), ("B".to_string(), 1)]);
    store.clear_old_data(150, 400);
    let summary = store.get_location_summary();
    assert_eq!(summary, vec![("A".to_string(), 1), ("B".to_string(), 0)]);
    assert_eq!(store.snapshot(&"A".to_string()).unwrap()[0].timestamp, 300);
    assert!(store.process_location_data(&"B".to_string()).is_none());
}

#[test]
fn processing_average_halves_history() {
    let mut store = DataProcessor::new();
    store.record_processing(100, 1);
    store.record_processing(100, 2);
    let stats = store.get_processing_stats();
    assert_eq!(stats.total_processed, 2);
    assert_eq!(stats.average_processing_time, 75);
    assert_eq!(stats.last_update, 2);
}

#[test]
fn constant_features_are_degenerate() {
    let set = vec![features(3); 12];
    assert_eq!(validate_training_data(&set, 12), Err(PredictionError::DegenerateFeature));
    let mut one_constant: Vec<PredictionFeatures> = (0..12).map(features).collect();
    for f in one_constant.iter_mut() {
        f.seasonal_factor = 4;
    }
    assert_eq!(validate_training_data(&one_constant, 12), Err(PredictionError::DegenerateFeature));
}

#[test]
fn training_set_checks() {
    let set: Vec<PredictionFeatures> = (0..12).map(features).collect();
    assert_eq!(validate_training_data(&set, 12), Ok(()));
    assert_eq!(validate_training_data(&set, 11), Err(PredictionError::InvalidArgument));
    let small: Vec<PredictionFeatures> = (0..5).map(features).collect();
    assert_eq!(validate_training_data(&small, 5), Err(PredictionError::InsufficientData));
    assert_eq!(validate_training_data(&Vec::new(), 0), Err(PredictionError::InsufficientData));
    assert_eq!(validate_training_data(&vec![features(3); 3], 3), Err(PredictionError::InsufficientData));
    assert_eq!(validate_update_data(&vec![features(3); 12], 12), Ok(()));
    assert_eq!(validate_update_data(&small, 5), Err(PredictionError::InsufficientData));
    assert_eq!(validate_update_data(&small, 4), Err(PredictionError::InvalidArgument));
}

#[test]
fn folds_cover_the_samples() {
    let folds = cross_validation_folds(10, 10, 3).unwrap();
    assert_eq!(folds, vec![(0, 3), (3, 6), (6, 10)]);
    assert_eq!(cross_validation_folds(10, 10, 0), Err(PredictionError::InvalidArgument));
    assert_eq!(cross_validation_folds(2, 2, 3), Err(PredictionError::InsufficientData));
    assert_eq!(cross_validation_folds(5, 5, 5).unwrap().len(), 5);
    assert_eq!(cross_validation_folds(10, 9, 3), Err(PredictionError::InvalidArgument));
}

#[test]
fn fold_split_parts() {
    let f: Vec<PredictionFeatures> = (0..5).map(features).collect();
    let t: Vec<i64> = vec![10, 11, 12, 13, 14];
    let (train_f, train_t, test_f, test_t) = split_fold(&f, &t, 1, 3);
    assert_eq!(train_t, vec![10, 13, 14]);
    assert_eq!(test_t, vec![11, 12]);
    assert_eq!(train_f.len(), 3);
    assert_eq!(test_f[0].temperature, 1);
}

#[test]
fn confidence_z_scores() {
    assert_eq!(z_score_milli(950), 1960);
    assert_eq!(z_score_milli(990), 2576);
    assert_eq!(z_score_milli(500), 1960);
}

#[test]
fn ledger_hash_input_bytes() {
    let bytes = hash_input("NYC", 2150, -1, 258);
    let mut expected = b"NYC".to_vec();
    expected.extend_from_slice(&2150i64.to_be_bytes());
    expected.extend_from_slice(&(-1i64).to_be_bytes());
    expected.extend_from_slice(&258u64.to_be_bytes());
    assert_eq!(bytes, expected);
}

#[test]
fn interpolation_reaches_every_hour() {
    let out = interpolate_points(&vec![point("X", 0, 0), point("X", 5000, 500), point("X", 10000, 1000)]);
    let times: Vec<i64> = out.iter().map(|p| p.timestamp).collect();
    assert_eq!(times, vec![0, 3600, 5000, 8600, 10000]);
    for w in out.windows(2) {
        assert!(w[1].timestamp - w[0].timestamp <= 3600);
    }
}

#[test]
fn interpolation_weights_by_time() {
    let out = fill_time_gaps(&vec![point("X", 0, 0), point("X", 9000, 1000)]);
    let temps: Vec<i32> = out.iter().map(|p| p.temperature).collect();
    assert_eq!(temps, vec![0, 400, 800, 1000]);
}

#[test]
fn interpolation_sort_is_stable() {
    let out = interpolate_points(&vec![point("X", 50, 2), point("X", 10, 1), point("X", 50, 3)]);
    let temps: Vec<i32> = out.iter().map(|p| p.temperature).collect();
    assert_eq!(temps, vec![1, 2, 3]);
}

#[test]
fn feature_names_in_order() {
    assert_eq!(
        feature_names(),
        vec![
            "temperature",
            "humidity",
            "pressure",
            "wind_speed",
            "wind_direction",
            "historical_avg_temp",
            "seasonal_factor",
            "location_latitude",
            "location_longitude"
        ]
    );
}

#[test]
fn anomalies_measured_from_exact_mean() {
    let mut data: Vec<WeatherDataPoint> = (0..10).map(|i| point("X", i as i64, 0)).collect();
    data[9].temperature = 1;
    assert_eq!(find_anomalies_in(&data, 0).len(), 10);
    assert_eq!(find_anomalies_in(&data, 200).len(), 1);
    assert_eq!(find_anomalies_in(&data, 300).len(), 0);
}
