use gpu_probe::util::{format_utc, normalize_n, timestamp_from_reading, utc_now, MAX_NORMALIZABLE_N};
use gpu_probe::TILE_SIZE;

#[test]
fn normalize_rounds_up_to_tile_multiple() {
    assert_eq!(normalize_n(0), TILE_SIZE);
    assert_eq!(normalize_n(1), TILE_SIZE);
    assert_eq!(normalize_n(TILE_SIZE), TILE_SIZE);
    assert_eq!(normalize_n(TILE_SIZE + 1), TILE_SIZE * 2);
    assert_eq!(normalize_n(1024), 1024);
    // Idempotent.
    assert_eq!(normalize_n(normalize_n(1000)), normalize_n(1000));
}

#[test]
fn format_utc_known_epochs() {
    assert_eq!(format_utc(0), "1970-01-01T00:00:00Z");
    // 2021-01-01T00:00:00Z
    assert_eq!(format_utc(1_609_459_200), "2021-01-01T00:00:00Z");
}

#[test]
fn normalize_exact_values() {
    assert_eq!(normalize_n(1000), 1008);
    assert_eq!(normalize_n(15), 16);
    assert_eq!(normalize_n(17), 32);
    assert_eq!(normalize_n(31), 32);
    assert_eq!(normalize_n(2048), 2048);
    assert_eq!(normalize_n(MAX_NORMALIZABLE_N), MAX_NORMALIZABLE_N);
    assert_eq!(normalize_n(MAX_NORMALIZABLE_N - 1), MAX_NORMALIZABLE_N);
}

#[test]
fn normalize_is_idempotent_on_many_sizes() {
    for n in 0..5000u32 {
        let once = normalize_n(n);
        assert_eq!(normalize_n(once), once);
        assert_eq!(once % TILE_SIZE, 0);
        assert!(once >= n && once > 0);
        assert!(once < n + TILE_SIZE || once == TILE_SIZE);
    }
}

#[test]
fn format_utc_before_epoch() {
    assert_eq!(format_utc(-1), "1969-12-31T23:59:59Z");
}

#[test]
fn format_utc_leap_day() {
    assert_eq!(format_utc(951_782_400), "2000-02-29T00:00:00Z");
    assert_eq!(format_utc(951_868_799), "2000-02-29T23:59:59Z");
    // 2100 is not a leap year.
    assert_eq!(format_utc(4_107_542_399), "2100-02-28T23:59:59Z");
    assert_eq!(format_utc(4_107_542_400), "2100-03-01T00:00:00Z");
}

#[test]
fn format_utc_other_known_times() {
    assert_eq!(format_utc(1_234_567_890), "2009-02-13T23:31:30Z");
    assert_eq!(format_utc(253_402_300_799), "9999-12-31T23:59:59Z");
    assert_eq!(format_utc(-62_135_596_800), "0001-01-01T00:00:00Z");
}

#[test]
fn format_utc_wide_years() {
    assert_eq!(format_utc(253_402_300_800), "10000-01-01T00:00:00Z");
    assert_eq!(format_utc(-62_135_596_801), "0000-12-31T23:59:59Z");
    assert_eq!(format_utc(-62_167_219_201), "-001-12-31T23:59:59Z");
    assert_eq!(format_utc(-62_198_755_201), "-002-12-31T23:59:59Z");
}

#[test]
fn format_utc_extremes() {
    assert_eq!(format_utc(i64::MIN), "-292277022657-01-27T08:29:52Z");
    assert_eq!(format_utc(i64::MAX), "292277026596-12-04T15:30:07Z");
}

#[test]
fn utc_now_has_timestamp_shape() {
    let now = utc_now();
    let b = now.as_bytes();
    assert_eq!(b.len(), 20);
    assert_eq!(b[4], b'-');
    assert_eq!(b[7], b'-');
    assert_eq!(b[10], b'T');
    assert_eq!(b[13], b':');
    assert_eq!(b[16], b':');
    assert_eq!(b[19], b'Z');
    // The clock of the test machine is after 2020.
    assert!(now.as_str() > "2020-01-01T00:00:00Z");
}

#[test]
fn timestamp_from_clock_readings() {
    assert_eq!(timestamp_from_reading(None), "1970-01-01T00:00:00Z");
    assert_eq!(timestamp_from_reading(Some(0)), "1970-01-01T00:00:00Z");
    assert_eq!(timestamp_from_reading(Some(1_609_459_200)), "2021-01-01T00:00:00Z");
    // Beyond i64::MAX the count wraps to a negative number of seconds.
    assert_eq!(timestamp_from_reading(Some(u64::MAX)), "1969-12-31T23:59:59Z");
}

#[test]
fn timestamps_sort_like_time() {
    let seconds = [
        -62_167_219_200i64,
        -62_135_596_801,
        -1,
        0,
        59,
        60,
        3_599,
        3_600,
        86_399,
        86_400,
        951_782_400,
        1_609_459_200,
        253_402_300_799,
    ];
    for pair in seconds.windows(2) {
        assert!(format_utc(pair[0]) < format_utc(pair[1]));
    }
    assert_eq!(format_utc(-62_167_219_200), "0000-01-01T00:00:00Z");
}
