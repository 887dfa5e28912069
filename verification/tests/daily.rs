use beepee::model::{
    counts_as_previous_day, BloodPressureMeasurement, DailyBloodPressureMeasurements, Hours,
};

fn hours() -> Hours {
    Hours {
        morning_start: 6,
        morning_end: 11,
        midday_start: 11,
        midday_end: 17,
        evening_start: 17,
    }
}

fn bp(id: i64) -> BloodPressureMeasurement {
    BloodPressureMeasurement::new(id, id, 120, 80, 60, None)
}

#[test]
fn night_readings_belong_to_the_previous_day() {
    assert!(counts_as_previous_day(3, &hours()));
    assert!(!counts_as_previous_day(6, &hours()));
    assert!(!counts_as_previous_day(23, &hours()));
}

#[test]
fn each_slot_keeps_its_first_reading() {
    let mut day = DailyBloodPressureMeasurements::new_empty("2021-03-04".to_owned());
    day.slot(bp(1), 7, &hours());
    assert_eq!(day.morning, Some(bp(1)));
    // a second morning reading is kept aside
    day.slot(bp(2), 8, &hours());
    assert_eq!(day.morning, Some(bp(1)));
    assert_eq!(day.other, vec![bp(2)]);
    day.slot(bp(3), 12, &hours());
    assert_eq!(day.midday, Some(bp(3)));
    day.slot(bp(4), 19, &hours());
    assert_eq!(day.evening, Some(bp(4)));
    assert_eq!(day.date_string, "2021-03-04");
}

#[test]
fn a_night_reading_takes_the_evening_slot() {
    let mut day = DailyBloodPressureMeasurements::new_empty("2021-03-04".to_owned());
    day.slot(bp(1), 2, &hours());
    assert_eq!(day.evening, Some(bp(1)));
    // the evening slot is already taken, so a later evening reading is
    // kept aside
    day.slot(bp(2), 18, &hours());
    assert_eq!(day.evening, Some(bp(1)));
    assert_eq!(day.other, vec![bp(2)]);
}

#[test]
fn clock_arithmetic() {
    assert_eq!(beepee::datetime::milliseconds_since_midnight(1, 2, 3), 3_723_000);
    assert_eq!(beepee::datetime::milliseconds_since_epoch(1_600_000_000), 1_600_000_000_000);
}
