use timelapse::calendar::{day_changed, gen_video_name, video_file_name, LocalStamp};
use timelapse::frame::{frame_file_name, snapshot_file_name};

fn stamp(year: i32, month: u32, day: u32, hour: u32, minute: u32, second: u32) -> LocalStamp {
    LocalStamp { year, month, day, hour, minute, second, epoch_seconds: 0 }
}

#[test]
fn frame_name_is_zero_padded() {
    assert_eq!(frame_file_name(0), "img-00000000.jpg");
    assert_eq!(frame_file_name(1), "img-00000001.jpg");
    assert_eq!(frame_file_name(42), "img-00000042.jpg");
    assert_eq!(frame_file_name(99_999_999), "img-99999999.jpg");
}

#[test]
fn frame_name_grows_past_eight_digits() {
    assert_eq!(frame_file_name(100_000_000), "img-100000000.jpg");
    assert_eq!(frame_file_name(u32::MAX), "img-4294967295.jpg");
}

#[test]
fn frame_names_sort_in_index_order() {
    let samples = [0u32, 1, 9, 10, 11, 99, 100, 12_345, 9_999_999, 10_000_000, 99_999_999];
    for w in samples.windows(2) {
        let a = frame_file_name(w[0]);
        let b = frame_file_name(w[1]);
        assert_eq!(a.len(), 16);
        assert_eq!(b.len(), 16);
        assert!(a < b);
    }
}

#[test]
fn snapshot_name_appends_extension() {
    assert_eq!(snapshot_file_name("garden"), "garden.jpg");
    assert_eq!(snapshot_file_name(""), ".jpg");
}

#[test]
fn video_name_has_all_fields() {
    let t = stamp(2024, 3, 5, 7, 8, 9);
    assert_eq!(video_file_name("cam", &t), "cam_05_03_2024_07_08_09.mp4");
    let t = stamp(1999, 12, 31, 23, 59, 59);
    assert_eq!(video_file_name("roof", &t), "roof_31_12_1999_23_59_59.mp4");
}

#[test]
fn video_name_years_outside_four_digits() {
    assert_eq!(video_file_name("c", &stamp(12, 1, 2, 0, 0, 0)), "c_02_01_0012_00_00_00.mp4");
    assert_eq!(video_file_name("c", &stamp(12345, 1, 2, 0, 0, 0)), "c_02_01_+12345_00_00_00.mp4");
    assert_eq!(video_file_name("c", &stamp(-7, 1, 2, 0, 0, 0)), "c_02_01_-0007_00_00_00.mp4");
}

#[test]
fn generated_video_name_has_the_pattern() {
    let n = gen_video_name("cam");
    assert!(n.starts_with("cam_"));
    assert!(n.ends_with(".mp4"));
    assert_eq!(n.len(), "cam_dd_mm_yyyy_HH_MM_SS.mp4".len());
    assert_eq!(n.matches('_').count(), 6);
}

#[test]
fn day_change_detection() {
    let a = stamp(2024, 3, 5, 23, 59, 59);
    assert!(!day_changed(&a, &stamp(2024, 3, 5, 0, 0, 0)));
    assert!(day_changed(&a, &stamp(2024, 3, 6, 0, 0, 0)));
    assert!(day_changed(&a, &stamp(2024, 4, 5, 0, 0, 0)));
    assert!(day_changed(&a, &stamp(2025, 3, 5, 0, 0, 0)));
}
