use pace::space::Meters;
use pace::time::{Duration, Hours, Minutes, Seconds};
use pace::Pace;

#[test]
fn test_pace() {
    assert_eq!(Meters(10000).div(Seconds(60 * 60)), Pace(6, 0));
    assert_eq!(Meters(10000).div(Seconds::from_minutes(Minutes(60))), Pace(6, 0));
    assert_eq!(Meters(10000).div(Seconds::from_hours(Hours(1))), Pace(6, 0));
    assert_eq!(Meters(10000).div(Seconds::from_duration(Duration(1, 0, 0))), Pace(6, 0));
    assert_eq!(Meters(10000).div(Seconds::from_duration(Duration(0, 60, 0))), Pace(6, 0));
    assert_eq!(Meters(10000).div(Seconds::from_duration(Duration(0, 0, 60 * 60))), Pace(6, 0));
}

#[test]
fn pace_rounds_down() {
    // 10.5 km entered, 3600 s: 10 whole km, 360 s/km.
    assert_eq!(Meters(10500).div(Seconds(3600)), Pace(6, 0));
    // 9999 m in 3599 s: 9 whole km, 399 s/km = 6:39.
    assert_eq!(Meters(9999).div(Seconds(3599)), Pace(6, 39));
}

#[test]
fn pace_formatting() {
    assert_eq!(Pace(6, 0).to_display_string(), "06:00 min/km");
    assert_eq!(Pace(0, 5).to_display_string(), "00:05 min/km");
    assert_eq!(Pace(123, 45).to_display_string(), "123:45 min/km");
}

#[test]
fn sub_kilometer_distance_has_no_pace() {
    // Strictly below 1000 m the whole-kilometer count is zero and the pace
    // per kilometer would divide by zero.
    assert_eq!(Meters(999).checked_div(Seconds(3600)), None);
    assert_eq!(Meters(0).checked_div(Seconds(3600)), None);
    assert_eq!(Meters(1000).checked_div(Seconds(360)), Some(Pace(6, 0)));
}
