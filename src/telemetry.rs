//! From decoded samples to telemetry snapshots, and the sample counter of a
//! playback run.

use vstd::prelude::*;
use crate::focus::Focus;
use crate::names::compare_names;
use crate::record::{
    field_map, lemma_field_map_domain, lemma_field_map_values, lemma_sorted_distinct, sorted_by_name, FitDataMap,
    GenericRecord,
};
use crate::value::{
    clamp, count_of, count_value, floor_part, floor_scaled, real_parts, real_value, trunc_scaled, whole_part,
    ValueWithUnits,
};

verus! {

/// A field that the snapshot reads holds a value of the wrong shape.
#[derive(Clone, Debug)]
pub struct FieldShapeError {
    pub field: String,
}

/// The fields of a record, by name.
pub type FieldMap = Map<Seq<char>, ValueWithUnits>;

/// Only records of this kind, the decoder's label for a per-timestamp sample,
/// are samples.
pub open spec fn is_sample_kind(kind: Seq<char>) -> bool {
    kind == "record"@
}

/// The scale from metres per second to the display's speed unit (3.6 * 275).
pub const SPEED_SCALE: i128 = 990;

/// The offset added to the altitude, in metres.
pub const HEIGHT_BASE: u32 = 450;

/// Field `n` is present and is no count.
pub open spec fn bad_count(m: FieldMap, n: Seq<char>) -> bool {
    m.contains_key(n) && count_of(&m[n].value) is None
}

/// Field `n` is present and is no number.
pub open spec fn bad_real(m: FieldMap, n: Seq<char>) -> bool {
    m.contains_key(n) && real_parts(&m[n].value) is None
}

/// The first field, in name order, that the snapshot reads and cannot.
pub open spec fn first_bad(m: FieldMap) -> Option<Seq<char>> {
    if bad_count(m, "cadence"@) {
        Some("cadence"@)
    } else if bad_real(m, "distance"@) {
        Some("distance"@)
    } else if bad_real(m, "enhanced_altitude"@) {
        Some("enhanced_altitude"@)
    } else if bad_real(m, "enhanced_speed"@) {
        Some("enhanced_speed"@)
    } else if bad_real(m, "grade"@) {
        Some("grade"@)
    } else if bad_count(m, "heart_rate"@) {
        Some("heart_rate"@)
    } else if bad_count(m, "power"@) {
        Some("power"@)
    } else {
        None
    }
}

/// A count slot: the field's value, or zero where it is absent.
pub open spec fn count_slot(m: FieldMap, n: Seq<char>) -> int {
    if m.contains_key(n) {
        count_of(&m[n].value)->0 as int
    } else {
        0
    }
}

/// A numeric slot: the field's value times `scale`, truncated toward zero and
/// limited to `lo ..= hi`, or zero where it is absent.
pub open spec fn real_slot(m: FieldMap, n: Seq<char>, scale: int, lo: int, hi: int) -> int {
    if m.contains_key(n) {
        let (a, e) = real_parts(&m[n].value)->0;
        clamp(trunc_scaled(a * scale, e), lo, hi)
    } else {
        0
    }
}

/// The height slot: the baseline plus the altitude rounded down to whole
/// metres, limited to `0 ..= u32::MAX`, or zero where the altitude is absent.
pub open spec fn height_slot(m: FieldMap) -> int {
    if m.contains_key("enhanced_altitude"@) {
        let (a, e) = real_parts(&m["enhanced_altitude"@].value)->0;
        clamp(HEIGHT_BASE + floor_scaled(a, e), 0, u32::MAX as int)
    } else {
        0
    }
}

/// `f` is the snapshot of a sample with fields `m`, taken at sample index `time`.
pub open spec fn snapshot_of(f: Focus, m: FieldMap, time: u32) -> bool {
    &&& f.reserved_blank()
    &&& f.time == time
    &&& f.power == count_slot(m, "power"@)
    &&& f.heartrate == count_slot(m, "heart_rate"@)
    &&& f.cadence == count_slot(m, "cadence"@)
    &&& f.distance == real_slot(m, "distance"@, 1, 0, u32::MAX as int)
    &&& f.speed == real_slot(m, "enhanced_speed"@, SPEED_SCALE as int, 0, u32::MAX as int)
    &&& f.slope == real_slot(m, "grade"@, 1, i32::MIN as int, i32::MAX as int)
    &&& f.height == height_slot(m)
}

/// What mapping a record of kind `kind` and fields `m` at index `time` gives:
/// nothing for a record that is no sample; else the snapshot, or the first
/// field that cannot be read.
pub open spec fn mapped(kind: Seq<char>, m: FieldMap, time: u32, r: Result<Option<Focus>, FieldShapeError>) -> bool {
    if !is_sample_kind(kind) {
        r matches Ok(None)
    } else {
        match first_bad(m) {
            Some(n) => r matches Err(err) && err.field@ == n,
            None => r matches Ok(Some(f)) && snapshot_of(f, m, time),
        }
    }
}

/// A sample without an `enhanced_speed` field gets speed zero.
pub proof fn lemma_speed_defaults_to_zero(
    kind: Seq<char>,
    m: FieldMap,
    time: u32,
    r: Result<Option<Focus>, FieldShapeError>,
)
    requires
        mapped(kind, m, time, r),
        !m.contains_key("enhanced_speed"@),
    ensures
        r matches Ok(Some(f)) ==> f.speed == 0,
{
}

/// A record that is no sample gives no snapshot, whatever its fields hold.
pub proof fn lemma_other_kinds_give_nothing(
    kind: Seq<char>,
    m: FieldMap,
    time: u32,
    r: Result<Option<Focus>, FieldShapeError>,
)
    requires
        mapped(kind, m, time, r),
        !is_sample_kind(kind),
    ensures
        r matches Ok(None),
{
}

/// The value of field `name`, if the sorted list holds one.
fn find_field<'a>(fields: &'a Vec<(String, ValueWithUnits)>, name: &str) -> (r: Option<&'a ValueWithUnits>)
    requires
        sorted_by_name(fields@),
    ensures
        r is Some <==> field_map(fields@).contains_key(name@),
        r is Some ==> *r->0 == field_map(fields@)[name@],
{
    let mut i: usize = 0;
    while i < fields.len()
        invariant
            i <= fields.len(),
            sorted_by_name(fields@),
            forall|t: int| 0 <= t < i ==> #[trigger] fields@[t].0@ != name@,
        decreases fields.len() - i,
    {
        if compare_names(fields[i].0.as_str(), name) == 0 {
            proof {
                lemma_sorted_distinct(fields@);
                lemma_field_map_values(fields@);
                lemma_field_map_domain(fields@);
                assert(fields@[i as int].0@ == name@);
            }
            return Some(&fields[i].1);
        }
        i = i + 1;
    }
    proof {
        lemma_field_map_domain(fields@);
        if field_map(fields@).contains_key(name@) {
            let t = choose|t: int| 0 <= t < fields@.len() && #[trigger] fields@[t].0@ == name@;
        }
    }
    None
}

fn shape_error(field: &str) -> (r: FieldShapeError)
    ensures
        r.field@ == field@,
{
    FieldShapeError { field: field.to_owned() }
}

/// Reads a count slot.
fn read_count(fields: &Vec<(String, ValueWithUnits)>, name: &str) -> (r: Result<u32, FieldShapeError>)
    requires
        sorted_by_name(fields@),
    ensures
        match r {
            Ok(c) => !bad_count(field_map(fields@), name@) && c == count_slot(field_map(fields@), name@),
            Err(err) => bad_count(field_map(fields@), name@) && err.field@ == name@,
        },
{
    match find_field(fields, name) {
        None => Ok(0),
        Some(v) => match count_value(&v.value) {
            Some(c) => Ok(c),
            None => Err(shape_error(name)),
        },
    }
}

/// Reads a numeric slot.
fn read_real(fields: &Vec<(String, ValueWithUnits)>, name: &str, scale: i128, lo: i128, hi: i128) -> (r: Result<i128, FieldShapeError>)
    requires
        sorted_by_name(fields@),
        1 <= scale <= SPEED_SCALE,
        -0x1_0000_0000_0000_0000 <= lo <= 0 <= hi <= 0x1_0000_0000_0000_0000,
    ensures
        match r {
            Ok(x) => !bad_real(field_map(fields@), name@) && x == real_slot(field_map(fields@), name@, scale as int, lo as int, hi as int),
            Err(err) => bad_real(field_map(fields@), name@) && err.field@ == name@,
        },
{
    match find_field(fields, name) {
        None => Ok(0),
        Some(v) => match real_value(&v.value) {
            Some((m, e)) => {
                assert(-0x1_0000_0000_0000_0000 * SPEED_SCALE <= m * scale <= 0x1_0000_0000_0000_0000 * SPEED_SCALE) by (nonlinear_arith)
                    requires
                        -0x1_0000_0000_0000_0000 <= m <= 0x1_0000_0000_0000_0000,
                        1 <= scale <= SPEED_SCALE,
                        SPEED_SCALE == 990,
                ;
                Ok(whole_part(m * scale, e, lo, hi))
            },
            None => Err(shape_error(name)),
        },
    }
}

/// Reads the height slot.
fn read_height(fields: &Vec<(String, ValueWithUnits)>) -> (r: Result<u32, FieldShapeError>)
    requires
        sorted_by_name(fields@),
    ensures
        match r {
            Ok(h) => !bad_real(field_map(fields@), "enhanced_altitude"@) && h == height_slot(
                field_map(fields@),
            ),
            Err(err) => bad_real(field_map(fields@), "enhanced_altitude"@) && err.field@
                == "enhanced_altitude"@,
        },
{
    match find_field(fields, "enhanced_altitude") {
        None => Ok(0),
        Some(v) => match real_value(&v.value) {
            Some((m, e)) => {
                let below = -(HEIGHT_BASE as i128) - 1;
                let metres = floor_part(m, e, below, u32::MAX as i128);
                let h = HEIGHT_BASE as i128 + metres;
                if h < 0 {
                    Ok(0)
                } else if h > u32::MAX as i128 {
                    Ok(u32::MAX)
                } else {
                    Ok(h as u32)
                }
            },
            None => Err(shape_error("enhanced_altitude")),
        },
    }
}

impl Focus {
    /// The snapshot of `record` at sample index `time`: nothing unless the record
    /// is a sample; else the fields it reads, converted, with every other field
    /// at its default, or an error naming the first field it cannot read.
    pub fn from_map(record: &FitDataMap<ValueWithUnits>, time: u32) -> (r: Result<Option<Focus>, FieldShapeError>)
        requires
            sorted_by_name(record.fields@),
        ensures
            mapped(record.kind@, field_map(record.fields@), time, r),
    {
        if compare_names(record.kind.as_str(), "record") != 0 {
            return Ok(None);
        }
        let fs = &record.fields;
        let ghost m = field_map(fs@);
        let cadence = read_count(fs, "cadence")?;
        let distance = read_real(fs, "distance", 1, 0, u32::MAX as i128)?;
        let height = read_height(fs)?;
        let speed = read_real(fs, "enhanced_speed", SPEED_SCALE, 0, u32::MAX as i128)?;
        let slope = read_real(fs, "grade", 1, i32::MIN as i128, i32::MAX as i128)?;
        let heartrate = read_count(fs, "heart_rate")?;
        let power = read_count(fs, "power")?;
        let mut f = Focus::new();
        f.time = time;
        f.cadence = cadence;
        f.distance = distance as u32;
        f.speed = speed as u32;
        f.slope = slope as i32;
        f.heartrate = heartrate;
        f.power = power;
        f.height = height;
        Ok(Some(f))
    }

    /// The snapshot of `record` at sample index `time`, as `from_map` gives it
    /// for the record's fields.
    pub fn from_record(record: GenericRecord<ValueWithUnits>, time: u32) -> (r: Result<Option<Focus>, FieldShapeError>)
        ensures
            mapped(record.kind@, field_map(record.fields@), time, r),
    {
        let map = FitDataMap::new(record);
        Focus::from_map(&map, time)
    }
}

} // verus!
