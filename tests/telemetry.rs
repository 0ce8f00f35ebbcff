use tpvfitplay::focus::Focus;
use tpvfitplay::playback::{snapshots, Playback};
use tpvfitplay::record::GenericRecord;
use tpvfitplay::value::{whole_part, FieldValue, ValueWithUnits};

fn float(x: f64) -> FieldValue {
    let bits = x.to_bits();
    let exp = ((bits >> 52) & 0x7ff) as i32;
    let frac = (bits & ((1u64 << 52) - 1)) as i64;
    let (m, e) = if exp == 0 { (frac, -1074) } else { (frac | (1i64 << 52), exp - 1075) };
    FieldValue::Float { mantissa: if x.is_sign_negative() { -m } else { m }, exponent: e }
}

fn field(name: &str, value: FieldValue) -> (String, ValueWithUnits) {
    (name.to_string(), ValueWithUnits { value, units: String::new() })
}

fn record(kind: &str, fields: Vec<(String, ValueWithUnits)>) -> GenericRecord<ValueWithUnits> {
    GenericRecord { kind: kind.to_string(), fields }
}

fn sample(fields: Vec<(String, ValueWithUnits)>) -> Focus {
    Focus::from_record(record("record", fields), 0).ok().unwrap().unwrap()
}

fn assert_reserved_blank(f: &Focus) {
    assert_eq!(f.name, "--");
    assert_eq!(f.country, "--");
    assert_eq!(f.team, "--");
    assert_eq!(f.teamCode, "--");
    assert_eq!(f.avgPower, 0);
    assert_eq!(f.nrmPower, 0);
    assert_eq!(f.maxPower, 0);
    assert_eq!(f.tss, 0);
    assert_eq!(f.eventLapsDone, 0);
    assert_eq!(f.eventPosition, 0);
}

#[test]
fn new_snapshot_is_blank() {
    let f = Focus::new();
    assert_reserved_blank(&f);
    assert_eq!(f.power, 0);
    assert_eq!(f.time, 0);
    assert_eq!(f.height, 0);
    assert_eq!(f.slope, 0);
}

#[test]
fn speed_scales_metres_per_second() {
    let f = sample(vec![field("enhanced_speed", float(10.0))]);
    assert_eq!(f.speed, 9900);
}

#[test]
fn height_truncates_altitude() {
    let f = sample(vec![field("enhanced_altitude", float(12.7))]);
    assert_eq!(f.height, 462);
}

#[test]
fn slope_truncates_toward_zero() {
    let f = sample(vec![field("grade", float(-3.8))]);
    assert_eq!(f.slope, -3);
}

#[test]
fn speed_stays_zero_without_field() {
    let f = sample(vec![field("power", FieldValue::Integer(250)), field("heart_rate", FieldValue::Integer(140))]);
    assert_eq!(f.speed, 0);
    assert_eq!(f.power, 250);
    assert_eq!(f.heartrate, 140);
    assert_reserved_blank(&f);
}

#[test]
fn full_sample_maps_every_slot() {
    let f = sample(vec![
        field("power", FieldValue::Integer(300)),
        field("heart_rate", FieldValue::Integer(150)),
        field("cadence", FieldValue::Integer(90)),
        field("distance", float(1234.9)),
        field("enhanced_speed", float(8.5)),
        field("grade", float(2.9)),
        field("enhanced_altitude", float(100.2)),
        field("temperature", FieldValue::Integer(21)),
        field("position_lat", FieldValue::Integer(-5)),
    ]);
    assert_eq!(f.power, 300);
    assert_eq!(f.heartrate, 150);
    assert_eq!(f.cadence, 90);
    assert_eq!(f.distance, 1234);
    assert_eq!(f.speed, 8415);
    assert_eq!(f.slope, 2);
    assert_eq!(f.height, 550);
    assert_reserved_blank(&f);
}

#[test]
fn integer_values_read_as_numbers() {
    let f = sample(vec![field("distance", FieldValue::Integer(42)), field("enhanced_speed", FieldValue::Integer(2))]);
    assert_eq!(f.distance, 42);
    assert_eq!(f.speed, 1980);
}

#[test]
fn negative_values_saturate() {
    let f = sample(vec![field("enhanced_altitude", float(-10.5)), field("enhanced_speed", float(-1.0)), field("distance", float(-3.0))]);
    assert_eq!(f.height, 439);
    assert_eq!(f.speed, 0);
    assert_eq!(f.distance, 0);
}

#[test]
fn height_rounds_negative_altitude_down() {
    assert_eq!(sample(vec![field("enhanced_altitude", float(-5.5))]).height, 444);
    assert_eq!(sample(vec![field("enhanced_altitude", float(-3.0))]).height, 447);
    assert_eq!(sample(vec![field("enhanced_altitude", FieldValue::Integer(-450))]).height, 0);
    assert_eq!(sample(vec![field("enhanced_altitude", float(-450.5))]).height, 0);
    assert_eq!(sample(vec![field("enhanced_altitude", float(-449.5))]).height, 0);
    assert_eq!(sample(vec![field("enhanced_altitude", float(-448.5))]).height, 1);
}

#[test]
fn huge_values_saturate() {
    let f = sample(vec![field("enhanced_altitude", float(1e12)), field("grade", float(-1e12)), field("distance", float(1e30))]);
    assert_eq!(f.height, u32::MAX);
    assert_eq!(f.slope, i32::MIN);
    assert_eq!(f.distance, u32::MAX);
}

#[test]
fn float_count_is_shape_error() {
    let r = Focus::from_record(record("record", vec![field("power", float(5.0))]), 0);
    assert_eq!(r.err().unwrap().field, "power");
}

#[test]
fn text_number_is_shape_error() {
    let r = Focus::from_record(record("record", vec![field("grade", FieldValue::Text("steep".to_string()))]), 0);
    assert_eq!(r.err().unwrap().field, "grade");
}

#[test]
fn count_out_of_range_is_shape_error() {
    let r = Focus::from_record(record("record", vec![field("heart_rate", FieldValue::Integer(-1))]), 0);
    assert_eq!(r.err().unwrap().field, "heart_rate");
    let r = Focus::from_record(record("record", vec![field("cadence", FieldValue::Integer(1i128 << 32))]), 0);
    assert_eq!(r.err().unwrap().field, "cadence");
}

#[test]
fn first_bad_field_in_name_order() {
    let r = Focus::from_record(
        record("record", vec![field("power", FieldValue::Other), field("distance", FieldValue::Other)]),
        0,
    );
    assert_eq!(r.err().unwrap().field, "distance");
}

#[test]
fn other_kinds_give_nothing() {
    let r = Focus::from_record(record("lap", vec![field("power", FieldValue::Other)]), 3);
    assert!(matches!(r, Ok(None)));
}

#[test]
fn times_count_samples_only() {
    let mut p = Playback::new();
    let kinds = ["file_id", "record", "event", "record", "lap", "record", "session"];
    let mut times = Vec::new();
    for k in kinds.iter() {
        let before = p.next_time;
        match p.step(record(k, vec![field("power", FieldValue::Integer(1))])).ok().unwrap() {
            Some(f) => times.push(f.time),
            None => assert_eq!(p.next_time, before),
        }
    }
    assert_eq!(times, vec![0, 1, 2]);
    assert_eq!(p.next_time, 3);
}

#[test]
fn snapshots_number_samples() {
    let mut rs = Vec::new();
    for i in 0..5 {
        rs.push(record("record", vec![field("power", FieldValue::Integer(i))]));
        rs.push(record("device_info", vec![]));
    }
    let fs = snapshots(rs).ok().unwrap();
    assert_eq!(fs.len(), 5);
    for (t, f) in fs.iter().enumerate() {
        assert_eq!(f.time as usize, t);
        assert_eq!(f.power as usize, t);
    }
}

#[test]
fn snapshots_stop_at_bad_sample() {
    let rs = vec![
        record("record", vec![]),
        record("record", vec![field("cadence", FieldValue::Text("x".to_string()))]),
        record("record", vec![field("power", FieldValue::Other)]),
    ];
    assert_eq!(snapshots(rs).err().unwrap().field, "cadence");
}

#[test]
fn whole_part_cases() {
    assert_eq!(whole_part(5, 3, -1000, 1000), 40);
    assert_eq!(whole_part(-7, -1, -1000, 1000), -3);
    assert_eq!(whole_part(7, -1, -1000, 1000), 3);
    assert_eq!(whole_part(1, -200, -10, 10), 0);
    assert_eq!(whole_part(3, 100, -10, 10), 10);
    assert_eq!(whole_part(-3, 100, -10, 10), -10);
    assert_eq!(whole_part(0, 1000, -10, 10), 0);
}
