use gpu_probe::store::to_sqlite_integer;
use gpu_probe::DEFAULT_SEED;

#[test]
fn sqlite_integer_keeps_the_bits() {
    assert_eq!(to_sqlite_integer(0), 0);
    assert_eq!(to_sqlite_integer(DEFAULT_SEED), 0x0123_4567_89AB_CDEF);
    assert_eq!(to_sqlite_integer(u64::MAX), -1);
    assert_eq!(to_sqlite_integer(0x8000_0000_0000_0000), i64::MIN);
    for x in [0u64, 1, 0xD1B5_4A32_D192_ED03, u64::MAX, 1 << 63] {
        assert_eq!(to_sqlite_integer(x) as u64, x);
    }
}
