//! A reproducible GPU matrix-multiply benchmark and measurement instrument:
//! the decisions and computations behind one fully stamped result row.
//!
//! Every knob that can affect a number is recorded next to it, so runs can be
//! judged comparable, or not, after the fact.

use vstd::prelude::*;

pub mod benchmark;
pub mod calendar;
pub mod cli;
pub mod hardware;
pub mod lockfile;
pub mod chars;
pub mod store;
pub mod text;
pub mod util;
pub mod verify;

pub use benchmark::TILE_SIZE;
pub use hardware::HardwareInfo;

verus! {

/// All benchmark parameters, every one of which is recorded in the result row.
#[derive(Debug, Clone)]
pub struct Config {
    /// Square matrix dimension; rounded up to a multiple of `TILE_SIZE` before use.
    pub n: u32,
    /// Deterministic input seed: the same seed yields bit-identical matrices on
    /// every machine.
    pub seed: u64,
    /// Untimed warm-up iterations run before timing begins.
    pub warmup_iters: u32,
    /// Timed iterations that contribute to the reported statistics.
    pub timed_iters: u32,
    /// Path of the SQLite database that receives the row.
    pub db_path: String,
}

/// A configuration as mathematical values.
pub struct ConfigView {
    pub n: u32,
    pub seed: u64,
    pub warmup_iters: u32,
    pub timed_iters: u32,
    pub db_path: Seq<char>,
}

impl View for Config {
    type V = ConfigView;

    open spec fn view(&self) -> ConfigView {
        ConfigView {
            n: self.n,
            seed: self.seed,
            warmup_iters: self.warmup_iters,
            timed_iters: self.timed_iters,
            db_path: self.db_path@,
        }
    }
}

/// Default matrix size.
pub const DEFAULT_N: u32 = 1024;

/// Default input seed; fixed, so that default runs are reproducible.
pub const DEFAULT_SEED: u64 = 0x0123_4567_89AB_CDEF;

/// The default configuration: N = 1024, the fixed seed, 3 warm-up and 20
/// timed iterations, database `./gpu-probe.db`.
pub open spec fn default_config() -> ConfigView {
    ConfigView {
        n: DEFAULT_N,
        seed: DEFAULT_SEED,
        warmup_iters: 3,
        timed_iters: 20,
        db_path: "./gpu-probe.db"@,
    }
}

impl Default for Config {
    fn default() -> (r: Self)
        ensures
            r@ == default_config(),
    {
        Config {
            n: DEFAULT_N,
            seed: DEFAULT_SEED,
            warmup_iters: 3,
            timed_iters: 20,
            db_path: "./gpu-probe.db".to_owned(),
        }
    }
}

/// The default matrix size is already a multiple of the tile size, so
/// normalization leaves it unchanged.
pub proof fn lemma_default_n_is_normalized()
    ensures
        util::tile_ceiling(default_config().n as int) == default_config().n,
{
    util::lemma_tile_ceiling(1024);
    assert(1024int % 16 == 0);
}

} // verus!
