use std::time::Duration;
use tt::loader::{format_elapsed, format_elapsed_parts, spinner_step, ShimmerLoader};

#[test]
fn sub_second_values_use_millis() {
    assert_eq!(format_elapsed(Duration::from_millis(450)), "450ms");
}

#[test]
fn seconds_minutes_hours_are_formatted() {
    assert_eq!(format_elapsed(Duration::from_secs(12)), "12s");
    assert_eq!(format_elapsed(Duration::from_secs(125)), "2m 5s");
    assert_eq!(
        format_elapsed(Duration::from_secs(3 * 3600 + 42 * 60 + 9)),
        "3h 42m 9s"
    );
}

#[test]
fn zero_parts_are_left_out() {
    assert_eq!(format_elapsed_parts(0, 0), "0ms");
    assert_eq!(format_elapsed_parts(60, 0), "1m");
    assert_eq!(format_elapsed_parts(3600, 999), "1h");
    assert_eq!(format_elapsed_parts(3601, 0), "1h 1s");
    assert_eq!(format_elapsed(Duration::from_millis(1999)), "1s");
}

#[test]
fn spinner_cycles_through_frames() {
    assert_eq!(spinner_step(0), ('⡿', 1));
    assert_eq!(spinner_step(7), ('⢿', 0));
    assert_eq!(spinner_step(9), ('⣟', 2));
    let l = ShimmerLoader::new("tt is working".to_string());
    assert!(l.is_visible());
    assert_eq!(l.frame_line('⡿', "12ms"), "\r⡿ tt is working (12ms)   ");
    assert!(!ShimmerLoader::new(String::new()).is_visible());
}
