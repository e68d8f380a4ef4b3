use gpu_probe::verify::{sample_cells, splitmix64, SAMPLE_COUNT, SAMPLE_SEED, SPLITMIX_GAMMA};

#[test]
fn splitmix64_known_first_output() {
    let mut state = 0u64;
    assert_eq!(splitmix64(&mut state), 0xe220a8397b1dcdaf);
    assert_eq!(state, SPLITMIX_GAMMA);
}

#[test]
fn splitmix64_state_wraps() {
    let mut state = u64::MAX;
    splitmix64(&mut state);
    assert_eq!(state, SPLITMIX_GAMMA - 1);
}

#[test]
fn sample_cells_known_values() {
    let cells = sample_cells(16);
    assert_eq!(cells.len(), SAMPLE_COUNT);
    assert_eq!(&cells[..4], &[(2, 2), (15, 10), (6, 11), (11, 4)]);
    let cells = sample_cells(1024);
    assert_eq!(&cells[..3], &[(690, 594), (431, 154), (982, 667)]);
}

#[test]
fn sample_cells_are_inside_and_fixed() {
    for n in [1u32, 16, 17, 1024, 4096] {
        let a = sample_cells(n);
        let b = sample_cells(n);
        assert_eq!(a, b);
        assert!(a.iter().all(|&(r, c)| r < n as usize && c < n as usize));
    }
    assert!(sample_cells(1).iter().all(|&cell| cell == (0, 0)));
}

#[test]
fn sample_cells_follow_the_sequence() {
    let n = 4096u32;
    let mut state = SAMPLE_SEED;
    for (row, col) in sample_cells(n) {
        assert_eq!(row as u64, splitmix64(&mut state) % n as u64);
        assert_eq!(col as u64, splitmix64(&mut state) % n as u64);
    }
}
