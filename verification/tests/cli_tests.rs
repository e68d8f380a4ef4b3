use gpu_probe::cli::{parse_args, parse_u64, CliAction};
use gpu_probe::Config;

fn args(list: &[&str]) -> Vec<String> {
    list.iter().map(|s| s.to_string()).collect()
}

fn run_config(list: &[&str]) -> Config {
    match parse_args(&args(list)) {
        Ok(CliAction::Run(cfg)) => cfg,
        Ok(CliAction::Help) => panic!("help instead of a configuration"),
        Err(e) => panic!("error instead of a configuration: {e}"),
    }
}

fn error(list: &[&str]) -> String {
    match parse_args(&args(list)) {
        Err(e) => e,
        Ok(_) => panic!("accepted"),
    }
}

#[test]
fn parse_u64_decimal_and_hex() {
    assert_eq!(parse_u64("0"), Some(0));
    assert_eq!(parse_u64("1024"), Some(1024));
    assert_eq!(parse_u64("+7"), Some(7));
    assert_eq!(parse_u64("0x0123456789ABCDEF"), Some(0x0123_4567_89AB_CDEF));
    assert_eq!(parse_u64("0XdeadBEEF"), Some(0xDEAD_BEEF));
    assert_eq!(parse_u64("18446744073709551615"), Some(u64::MAX));
    assert_eq!(parse_u64("0xffffffffffffffff"), Some(u64::MAX));
}

#[test]
fn parse_u64_rejects() {
    assert_eq!(parse_u64(""), None);
    assert_eq!(parse_u64("0x"), None);
    assert_eq!(parse_u64("+"), None);
    assert_eq!(parse_u64("-1"), None);
    assert_eq!(parse_u64(" 1"), None);
    assert_eq!(parse_u64("12a"), None);
    assert_eq!(parse_u64("0xg"), None);
    assert_eq!(parse_u64("18446744073709551616"), None);
    assert_eq!(parse_u64("0x10000000000000000"), None);
}

#[test]
fn no_arguments_give_the_defaults() {
    let cfg = run_config(&[]);
    assert_eq!(cfg.n, 1024);
    assert_eq!(cfg.seed, 0x0123_4567_89AB_CDEF);
    assert_eq!(cfg.warmup_iters, 3);
    assert_eq!(cfg.timed_iters, 20);
    assert_eq!(cfg.db_path, "./gpu-probe.db");
}

#[test]
fn all_flags() {
    let cfg = run_config(&["--n", "2048", "--iters", "50", "--seed", "0xDEADBEEF", "--db", "results.db", "--warmup", "0"]);
    assert_eq!(cfg.n, 2048);
    assert_eq!(cfg.timed_iters, 50);
    assert_eq!(cfg.seed, 0xDEAD_BEEF);
    assert_eq!(cfg.db_path, "results.db");
    assert_eq!(cfg.warmup_iters, 0);
}

#[test]
fn later_flag_overrides_earlier() {
    let cfg = run_config(&["--n", "16", "--n", "1000"]);
    assert_eq!(cfg.n, 1000);
}

#[test]
fn flag_takes_next_argument_whatever_it_is() {
    let cfg = run_config(&["--db", "--n"]);
    assert_eq!(cfg.db_path, "--n");
}

#[test]
fn help_flags() {
    assert!(matches!(parse_args(&args(&["-h"])), Ok(CliAction::Help)));
    assert!(matches!(parse_args(&args(&["--n", "32", "--help", "--bogus"])), Ok(CliAction::Help)));
    assert_eq!(error(&["--bogus", "--help"]), "unknown argument: --bogus");
}

#[test]
fn missing_values() {
    assert_eq!(error(&["--n"]), "missing value for --n");
    assert_eq!(error(&["--seed"]), "missing value for --seed");
    assert_eq!(error(&["--warmup"]), "missing value for --warmup");
    assert_eq!(error(&["--iters"]), "missing value for --iters");
    assert_eq!(error(&["--n", "16", "--db"]), "missing value for --db");
}

#[test]
fn invalid_values() {
    assert_eq!(error(&["--n", "x"]), "invalid --n");
    assert_eq!(error(&["--n", "4294967296"]), "invalid --n");
    assert_eq!(error(&["--seed", "0xZZ"]), "invalid --seed");
    assert_eq!(error(&["--warmup", "-1"]), "invalid --warmup");
    assert_eq!(error(&["--iters", ""]), "invalid --iters");
    assert_eq!(error(&["--iters", "0x10"]), "invalid --iters");
}

#[test]
fn unknown_argument() {
    assert_eq!(error(&["bench"]), "unknown argument: bench");
}

#[test]
fn written_numbers_read_back() {
    for x in [0u64, 1, 9, 10, 255, 0xDEAD_BEEF, 0x0123_4567_89AB_CDEF, u64::MAX] {
        assert_eq!(parse_u64(&x.to_string()), Some(x));
        assert_eq!(parse_u64(&format!("0x{:x}", x)), Some(x));
        assert_eq!(parse_u64(&format!("0X{:X}", x)), Some(x));
        assert_eq!(parse_u64(&format!("0x{:016x}", x)), Some(x));
    }
}
