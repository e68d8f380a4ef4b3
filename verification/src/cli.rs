//! Command-line arguments: flags that each take one value, numbers in
//! decimal (and the seed also in `0x` hexadecimal).

use vstd::prelude::*;

use crate::{default_config, Config, ConfigView};
use crate::chars::{chars_of, string_from_chars};
use crate::text::{digit_char, radix_digits, zero_pad};
use vstd::arithmetic::div_mod::{lemma_fundamental_div_mod, lemma_mod_bound};

verus! {

// ---------------------------------------------------------------------------
// Unsigned integers in text
// ---------------------------------------------------------------------------

/// The value of a digit character in bases up to 36, as `char::to_digit` reads it.
pub open spec fn digit_value(c: char) -> Option<nat> {
    let v = c as u32;
    if 48 <= v <= 57 {
        Some((v - 48) as nat)
    } else if 97 <= v <= 122 {
        Some((v - 87) as nat)
    } else if 65 <= v <= 90 {
        Some((v - 55) as nat)
    } else {
        None
    }
}

/// The value of a string of digits in base `radix`; `None` if a character is
/// not a digit of that base. The empty string has value zero.
pub open spec fn digits_value(s: Seq<char>, radix: nat) -> Option<nat>
    decreases s.len(),
{
    if s.len() == 0 {
        Some(0)
    } else {
        match (digits_value(s.drop_last(), radix), digit_value(s.last())) {
            (Some(v), Some(d)) => if d < radix {
                Some(v * radix + d)
            } else {
                None
            },
            _ => None,
        }
    }
}

/// The value of the text of an unsigned integer in base `radix`: an optional
/// `+` followed by at least one digit, and nothing else.
pub open spec fn unsigned_text_value(s: Seq<char>, radix: nat) -> Option<nat> {
    let body = if s.len() > 0 && s[0] == '+' {
        s.drop_first()
    } else {
        s
    };
    if body.len() == 0 {
        None
    } else {
        digits_value(body, radix)
    }
}

/// What `from_str_radix` gives for an unsigned type whose largest value is `max`.
pub open spec fn parsed_unsigned(s: Seq<char>, radix: nat, max: nat) -> Option<nat> {
    match unsigned_text_value(s, radix) {
        Some(v) => if v <= max {
            Some(v)
        } else {
            None
        },
        None => None,
    }
}

/// `u64::from_str_radix`: the value of `s` in base `radix` (an optional `+`,
/// then one or more digits of that base), `None` for any other text and for a
/// value above `u64::MAX`, as std documents it.
#[verifier::external_body]
fn u64_from_str_radix(s: &str, radix: u32) -> (r: Option<u64>)
    requires
        2 <= radix <= 36,
    ensures
        match r {
            Some(v) => parsed_unsigned(s@, radix as nat, u64::MAX as nat) == Some(v as nat),
            None => parsed_unsigned(s@, radix as nat, u64::MAX as nat) is None,
        },
{
    u64::from_str_radix(s, radix).ok()
}

/// `u32::from_str_radix`: as `u64_from_str_radix`, with `u32::MAX` as the
/// largest value.
#[verifier::external_body]
fn u32_from_str_radix(s: &str, radix: u32) -> (r: Option<u32>)
    requires
        2 <= radix <= 36,
    ensures
        match r {
            Some(v) => parsed_unsigned(s@, radix as nat, u32::MAX as nat) == Some(v as nat),
            None => parsed_unsigned(s@, radix as nat, u32::MAX as nat) is None,
        },
{
    u32::from_str_radix(s, radix).ok()
}

/// The seed written in `s`: after `0x` or `0X` the rest in hexadecimal,
/// otherwise `s` in decimal.
pub open spec fn seed_value(s: Seq<char>) -> Option<nat> {
    if s.len() >= 2 && s[0] == '0' && (s[1] == 'x' || s[1] == 'X') {
        parsed_unsigned(s.skip(2), 16, u64::MAX as nat)
    } else {
        parsed_unsigned(s, 10, u64::MAX as nat)
    }
}

/// Parses a `u64` written in decimal or, after `0x` or `0X`, in hexadecimal.
pub fn parse_u64(s: &str) -> (r: Option<u64>)
    ensures
        match r {
            Some(v) => seed_value(s@) == Some(v as nat),
            None => seed_value(s@) is None,
        },
{
    let cs = chars_of(s);
    if cs.len() >= 2 && cs[0] == '0' && (cs[1] == 'x' || cs[1] == 'X') {
        let hex = string_from_chars(&cs, 2, cs.len());
        assert(hex@ =~= s@.skip(2));
        u64_from_str_radix(hex.as_str(), 16)
    } else {
        u64_from_str_radix(s, 10)
    }
}

// ---------------------------------------------------------------------------
// Numbers written out read back as themselves
// ---------------------------------------------------------------------------

/// An upper-case hexadecimal digit for a lower-case one; other characters unchanged.
pub open spec fn upper_digit(c: char) -> char {
    if c == 'a' { 'A' }
    else if c == 'b' { 'B' }
    else if c == 'c' { 'C' }
    else if c == 'd' { 'D' }
    else if c == 'e' { 'E' }
    else if c == 'f' { 'F' }
    else { c }
}

/// Digits written in upper case.
pub open spec fn upper_digits(s: Seq<char>) -> Seq<char> {
    s.map_values(|c: char| upper_digit(c))
}

proof fn lemma_digit_char_value(d: nat)
    requires
        d < 16,
    ensures
        digit_value(digit_char(d as int)) == Some(d),
        digit_value(upper_digit(digit_char(d as int))) == Some(d),
{
}

/// Every character of a digit string is a digit of its base.
proof fn lemma_radix_digits_are_digits(n: nat, base: nat)
    requires
        base == 10 || base == 16,
    ensures
        radix_digits(n, base).len() >= 1,
        forall|i: int| 0 <= i < radix_digits(n, base).len() ==> {
            &&& digit_value(#[trigger] radix_digits(n, base)[i]) is Some
            &&& digit_value(radix_digits(n, base)[i])->0 < base
            &&& digit_value(upper_digit(radix_digits(n, base)[i])) == digit_value(radix_digits(n, base)[i])
        },
    decreases n,
{
    if n >= base {
        lemma_fundamental_div_mod(n as int, base as int);
        lemma_mod_bound(n as int, base as int);
        vstd::arithmetic::div_mod::lemma_div_decreases(n as int, base as int);
        lemma_radix_digits_are_digits(n / base, base);
        lemma_digit_char_value(n % base);
        let prev = radix_digits(n / base, base);
        assert forall|i: int| 0 <= i < radix_digits(n, base).len() implies {
            &&& digit_value(#[trigger] radix_digits(n, base)[i]) is Some
            &&& digit_value(radix_digits(n, base)[i])->0 < base
            &&& digit_value(upper_digit(radix_digits(n, base)[i])) == digit_value(radix_digits(n, base)[i])
        } by {
            if i < prev.len() {
                assert(radix_digits(n, base)[i] == prev[i]);
            }
        }
    } else {
        lemma_digit_char_value(n);
    }
}

/// A number's digits, lower or upper case, read back as the number.
proof fn lemma_radix_digits_value(n: nat, base: nat)
    requires
        base == 10 || base == 16,
    ensures
        digits_value(radix_digits(n, base), base) == Some(n),
        digits_value(upper_digits(radix_digits(n, base)), base) == Some(n),
    decreases n,
{
    let s = radix_digits(n, base);
    if n >= base {
        lemma_fundamental_div_mod(n as int, base as int);
        lemma_mod_bound(n as int, base as int);
        vstd::arithmetic::div_mod::lemma_div_decreases(n as int, base as int);
        lemma_radix_digits_value(n / base, base);
        lemma_digit_char_value(n % base);
        let prev = radix_digits(n / base, base);
        assert(s == prev.push(digit_char((n % base) as int)));
        assert(s.drop_last() =~= prev);
        assert(s.last() == digit_char((n % base) as int));
        assert(digit_value(s.last()) == Some((n % base) as nat));
        assert(digits_value(s.drop_last(), base) == Some(n / base));
        assert(upper_digits(s).drop_last() =~= upper_digits(prev));
        assert(upper_digits(s).last() == upper_digit(digit_char((n % base) as int)));
        assert((n / base) * base + n % base == n) by (nonlinear_arith)
            requires n == base * (n / base) + n % base;
    } else {
        lemma_digit_char_value(n);
        assert(s == seq![digit_char(n as int)]);
        assert(s.drop_last() =~= Seq::<char>::empty());
        assert(digits_value(Seq::<char>::empty(), base) == Some(0nat));
        assert(upper_digits(s).drop_last() =~= Seq::<char>::empty());
    }
}

/// Leading zeros do not change the value of a digit string.
proof fn lemma_leading_zeros_value(k: nat, s: Seq<char>, base: nat)
    requires
        base == 10 || base == 16,
    ensures
        digits_value(Seq::new(k, |i: int| '0') + s, base) == digits_value(s, base),
    decreases s.len(), k,
{
    let z = Seq::new(k, |i: int| '0');
    if s.len() > 0 {
        assert((z + s).drop_last() =~= z + s.drop_last());
        lemma_leading_zeros_value(k, s.drop_last(), base);
    } else {
        assert(z + s =~= z);
        if k > 0 {
            assert(z.drop_last() =~= Seq::new((k - 1) as nat, |i: int| '0') + Seq::<char>::empty());
            lemma_leading_zeros_value((k - 1) as nat, Seq::<char>::empty(), base);
        }
    }
}

/// The decimal text of a `u64`, and its hexadecimal text after `0x` or `0X`
/// (lower or upper case, with any number of leading zeros), read back as the
/// same number.
pub proof fn lemma_seed_text_round_trip(x: u64, width: nat)
    ensures
        seed_value(radix_digits(x as nat, 10)) == Some(x as nat),
        seed_value(seq!['0', 'x'] + zero_pad(radix_digits(x as nat, 16), width)) == Some(x as nat),
        seed_value(seq!['0', 'X'] + zero_pad(upper_digits(radix_digits(x as nat, 16)), width))
            == Some(x as nat),
{
    let dec = radix_digits(x as nat, 10);
    lemma_radix_digits_are_digits(x as nat, 10);
    lemma_radix_digits_value(x as nat, 10);
    assert(digit_value('+') is None);
    assert(digit_value('x')->0 == 33 && digit_value('X')->0 == 33);
    if dec.len() >= 2 {
        assert(digit_value(dec[1]) is Some && digit_value(dec[1])->0 < 10);
    }
    assert(digit_value(dec[0]) is Some);

    let hex = radix_digits(x as nat, 16);
    lemma_radix_digits_are_digits(x as nat, 16);
    lemma_radix_digits_value(x as nat, 16);
    assert(digit_value(hex[0]) is Some);
    let up = upper_digits(hex);
    assert(up[0] == upper_digit(hex[0]));
    assert(digit_value(up[0]) is Some);

    let lower_text = seq!['0', 'x'] + zero_pad(hex, width);
    let padded = zero_pad(hex, width);
    if hex.len() < width {
        lemma_leading_zeros_value((width - hex.len()) as nat, hex, 16);
    }
    assert(lower_text.skip(2) =~= padded);
    assert(padded.len() >= 1);
    assert(padded[0] != '+') by {
        if hex.len() < width {
            assert(padded[0] == '0');
        }
    }

    let upper_text = seq!['0', 'X'] + zero_pad(up, width);
    let padded_up = zero_pad(up, width);
    if up.len() < width {
        lemma_leading_zeros_value((width - up.len()) as nat, up, 16);
    }
    assert(upper_text.skip(2) =~= padded_up);
    assert(padded_up[0] != '+') by {
        if up.len() < width {
            assert(padded_up[0] == '0');
        }
    }
}

// ---------------------------------------------------------------------------
// The argument list
// ---------------------------------------------------------------------------

/// What the command line asks for.
pub enum CliAction {
    /// Run with this configuration.
    Run(Config),
    /// Print the usage text.
    Help,
}

/// What the command line asks for, as mathematical values.
pub enum ArgsOutcome {
    Run(ConfigView),
    Help,
    Failed(Seq<char>),
}

pub open spec fn missing_value_message(flag: Seq<char>) -> Seq<char> {
    "missing value for "@ + flag
}

/// The outcome of reading `args` from position `i` on, with `cfg` as the
/// configuration so far. Each flag takes the next argument as its value,
/// whatever it holds; a later flag overrides an earlier one; help is asked for
/// as soon as `-h` or `--help` is reached.
pub open spec fn args_outcome(args: Seq<Seq<char>>, i: int, cfg: ConfigView) -> ArgsOutcome
    decreases args.len() - i,
{
    if i < 0 || i >= args.len() {
        ArgsOutcome::Run(cfg)
    } else {
        let a = args[i];
        let has_value = i + 1 < args.len();
        let value = args[i + 1];
        if a == "--n"@ {
            if !has_value {
                ArgsOutcome::Failed(missing_value_message("--n"@))
            } else {
                match parsed_unsigned(value, 10, u32::MAX as nat) {
                    Some(v) => args_outcome(args, i + 2, ConfigView { n: v as u32, ..cfg }),
                    None => ArgsOutcome::Failed("invalid --n"@),
                }
            }
        } else if a == "--seed"@ {
            if !has_value {
                ArgsOutcome::Failed(missing_value_message("--seed"@))
            } else {
                match seed_value(value) {
                    Some(v) => args_outcome(args, i + 2, ConfigView { seed: v as u64, ..cfg }),
                    None => ArgsOutcome::Failed("invalid --seed"@),
                }
            }
        } else if a == "--warmup"@ {
            if !has_value {
                ArgsOutcome::Failed(missing_value_message("--warmup"@))
            } else {
                match parsed_unsigned(value, 10, u32::MAX as nat) {
                    Some(v) => args_outcome(
                        args,
                        i + 2,
                        ConfigView { warmup_iters: v as u32, ..cfg },
                    ),
                    None => ArgsOutcome::Failed("invalid --warmup"@),
                }
            }
        } else if a == "--iters"@ {
            if !has_value {
                ArgsOutcome::Failed(missing_value_message("--iters"@))
            } else {
                match parsed_unsigned(value, 10, u32::MAX as nat) {
                    Some(v) => args_outcome(
                        args,
                        i + 2,
                        ConfigView { timed_iters: v as u32, ..cfg },
                    ),
                    None => ArgsOutcome::Failed("invalid --iters"@),
                }
            }
        } else if a == "--db"@ {
            if !has_value {
                ArgsOutcome::Failed(missing_value_message("--db"@))
            } else {
                args_outcome(args, i + 2, ConfigView { db_path: value, ..cfg })
            }
        } else if a == "-h"@ || a == "--help"@ {
            ArgsOutcome::Help
        } else {
            ArgsOutcome::Failed("unknown argument: "@ + a)
        }
    }
}

/// The value that follows the last occurrence of `flag` among the flags read
/// from position `i` on, flags standing at every second position (each flag is
/// followed by its value); `None` if `flag` does not occur there.
pub open spec fn last_flag_value(args: Seq<Seq<char>>, i: int, flag: Seq<char>) -> Option<Seq<char>>
    decreases args.len() - i,
{
    if i < 0 || i + 1 >= args.len() {
        None
    } else {
        match last_flag_value(args, i + 2, flag) {
            Some(v) => Some(v),
            None => if args[i] == flag {
                Some(args[i + 1])
            } else {
                None
            },
        }
    }
}

/// Every field of a configuration that the arguments ask to run with comes
/// from its own flag alone: the value after the flag's last occurrence, read
/// as a decimal `u32` for the sizes and counts, as `parse_u64` reads it for
/// the seed, and as is for the database path; a field whose flag does not
/// occur keeps its value from `cfg`.
pub open spec fn fields_from_flags(args: Seq<Seq<char>>, i: int, cfg: ConfigView, c: ConfigView) -> bool {
    &&& match last_flag_value(args, i, "--n"@) {
        Some(v) => parsed_unsigned(v, 10, u32::MAX as nat) == Some(c.n as nat),
        None => c.n == cfg.n,
    }
    &&& match last_flag_value(args, i, "--seed"@) {
        Some(v) => seed_value(v) == Some(c.seed as nat),
        None => c.seed == cfg.seed,
    }
    &&& match last_flag_value(args, i, "--warmup"@) {
        Some(v) => parsed_unsigned(v, 10, u32::MAX as nat) == Some(c.warmup_iters as nat),
        None => c.warmup_iters == cfg.warmup_iters,
    }
    &&& match last_flag_value(args, i, "--iters"@) {
        Some(v) => parsed_unsigned(v, 10, u32::MAX as nat) == Some(c.timed_iters as nat),
        None => c.timed_iters == cfg.timed_iters,
    }
    &&& match last_flag_value(args, i, "--db"@) {
        Some(v) => c.db_path == v,
        None => c.db_path == cfg.db_path,
    }
}

proof fn lemma_flags_distinct()
    ensures
        "--n"@ != "--seed"@,
        "--n"@ != "--warmup"@,
        "--n"@ != "--iters"@,
        "--n"@ != "--db"@,
        "--seed"@ != "--warmup"@,
        "--seed"@ != "--iters"@,
        "--seed"@ != "--db"@,
        "--warmup"@ != "--iters"@,
        "--warmup"@ != "--db"@,
        "--iters"@ != "--db"@,
{
    reveal_strlit("--n");
    reveal_strlit("--seed");
    reveal_strlit("--warmup");
    reveal_strlit("--iters");
    reveal_strlit("--db");
    assert("--n"@.len() == 3 && "--seed"@.len() == 6 && "--warmup"@.len() == 8);
    assert("--iters"@.len() == 7 && "--db"@.len() == 4);
    assert("--seed"@[2] != "--db"@[2]);
}

proof fn lemma_fields_from_flags(args: Seq<Seq<char>>, i: int, cfg: ConfigView, c: ConfigView)
    requires
        i >= 0,
        args_outcome(args, i, cfg) == ArgsOutcome::Run(c),
    ensures
        fields_from_flags(args, i, cfg, c),
    decreases args.len() - i,
{
    lemma_flags_distinct();
    if i < args.len() {
        let a = args[i];
        let v = args[i + 1];
        if a == "--n"@ {
            let next = ConfigView { n: parsed_unsigned(v, 10, u32::MAX as nat)->0 as u32, ..cfg };
            lemma_fields_from_flags(args, i + 2, next, c);
        } else if a == "--seed"@ {
            let next = ConfigView { seed: seed_value(v)->0 as u64, ..cfg };
            lemma_fields_from_flags(args, i + 2, next, c);
        } else if a == "--warmup"@ {
            let next = ConfigView { warmup_iters: parsed_unsigned(v, 10, u32::MAX as nat)->0 as u32, ..cfg };
            lemma_fields_from_flags(args, i + 2, next, c);
        } else if a == "--iters"@ {
            let next = ConfigView { timed_iters: parsed_unsigned(v, 10, u32::MAX as nat)->0 as u32, ..cfg };
            lemma_fields_from_flags(args, i + 2, next, c);
        } else if a == "--db"@ {
            let next = ConfigView { db_path: v, ..cfg };
            lemma_fields_from_flags(args, i + 2, next, c);
        }
    }
}

/// When the arguments ask for a run, each field of the configuration is set by
/// its own flag only: the value after the last `--n`, `--seed`, `--warmup`,
/// `--iters` or `--db` (the seed read as `parse_u64` reads it, so a decimal
/// seed is decimal), or the default where that flag does not occur.
pub proof fn lemma_run_fields(args: Seq<Seq<char>>, c: ConfigView)
    requires
        args_outcome(args, 0, default_config()) == ArgsOutcome::Run(c),
    ensures
        fields_from_flags(args, 0, default_config(), c),
{
    lemma_fields_from_flags(args, 0, default_config(), c);
}

/// The arguments as texts.
pub open spec fn args_text(args: Seq<String>) -> Seq<Seq<char>> {
    args.map_values(|a: String| a@)
}

fn is_text(a: &String, lit: &str) -> (r: bool)
    ensures
        r == (a@ == lit@),
{
    let owned = lit.to_owned();
    *a == owned
}

fn missing_value(flag: &str) -> (r: String)
    ensures
        r@ == missing_value_message(flag@),
{
    let mut msg = "missing value for ".to_owned();
    msg.append(flag);
    msg
}

/// Reads the arguments that follow the program name, starting from the
/// default configuration.
pub fn parse_args(args: &Vec<String>) -> (r: Result<CliAction, String>)
    ensures
        match r {
            Ok(CliAction::Run(cfg)) => args_outcome(args_text(args@), 0, default_config())
                == ArgsOutcome::Run(cfg@) && fields_from_flags(
                args_text(args@),
                0,
                default_config(),
                cfg@,
            ),
            Ok(CliAction::Help) => args_outcome(args_text(args@), 0, default_config())
                == ArgsOutcome::Help,
            Err(msg) => args_outcome(args_text(args@), 0, default_config())
                == ArgsOutcome::Failed(msg@),
        },
{
    let ghost text = args_text(args@);
    let mut cfg = Config::default();
    let mut i: usize = 0;
    while i < args.len()
        invariant
            text == args_text(args@),
            i <= args.len(),
            args_outcome(text, 0, default_config()) == args_outcome(text, i as int, cfg@),
        decreases args.len() - i,
    {
        let arg = &args[i];
        let has_value = i + 1 < args.len();
        assert(text[i as int] == arg@);
        if has_value {
            assert(text[i + 1] == args@[i + 1]@);
        }
        if is_text(arg, "--n") {
            if !has_value {
                return Err(missing_value("--n"));
            }
            match u32_from_str_radix(args[i + 1].as_str(), 10) {
                Some(v) => {
                    cfg.n = v;
                },
                None => {
                    return Err("invalid --n".to_owned());
                },
            }
        } else if is_text(arg, "--seed") {
            if !has_value {
                return Err(missing_value("--seed"));
            }
            match parse_u64(args[i + 1].as_str()) {
                Some(v) => {
                    cfg.seed = v;
                },
                None => {
                    return Err("invalid --seed".to_owned());
                },
            }
        } else if is_text(arg, "--warmup") {
            if !has_value {
                return Err(missing_value("--warmup"));
            }
            match u32_from_str_radix(args[i + 1].as_str(), 10) {
                Some(v) => {
                    cfg.warmup_iters = v;
                },
                None => {
                    return Err("invalid --warmup".to_owned());
                },
            }
        } else if is_text(arg, "--iters") {
            if !has_value {
                return Err(missing_value("--iters"));
            }
            match u32_from_str_radix(args[i + 1].as_str(), 10) {
                Some(v) => {
                    cfg.timed_iters = v;
                },
                None => {
                    return Err("invalid --iters".to_owned());
                },
            }
        } else if is_text(arg, "--db") {
            if !has_value {
                return Err(missing_value("--db"));
            }
            cfg.db_path = args[i + 1].clone();
        } else if is_text(arg, "-h") || is_text(arg, "--help") {
            return Ok(CliAction::Help);
        } else {
            let mut msg = "unknown argument: ".to_owned();
            msg.append(arg.as_str());
            return Err(msg);
        }
        i = i + 2;
    }
    proof {
        lemma_run_fields(text, cfg@);
    }
    Ok(CliAction::Run(cfg))
}

} // verus!
