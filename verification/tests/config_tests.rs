use gpu_probe::util::normalize_n;
use gpu_probe::Config;

#[test]
fn default_config_values() {
    let cfg = Config::default();
    assert_eq!(cfg.n, 1024);
    assert_eq!(cfg.seed, 0x0123_4567_89AB_CDEF);
    assert_eq!(cfg.warmup_iters, 3);
    assert_eq!(cfg.timed_iters, 20);
    assert_eq!(cfg.db_path, "./gpu-probe.db");
}

#[test]
fn default_size_is_already_normalized() {
    let cfg = Config::default();
    assert_eq!(normalize_n(cfg.n), cfg.n);
}
