//! Choice of the output cells that are recomputed on the CPU.
//!
//! Only a fixed number of cells of the product are checked. Which ones is
//! decided by a SplitMix64 sequence started from a fixed seed, so the same
//! cells are checked on every run, whatever seed the inputs were made from.

use vstd::prelude::*;
use vstd::arithmetic::div_mod::{lemma_add_mod_noop, lemma_mod_bound, lemma_small_mod};
use vstd::wrapping::u64_specs::{wrapping_add, wrapping_mul};

verus! {

/// Number of sampled cells.
pub const SAMPLE_COUNT: usize = 32;

/// Seed of the sequence that picks the sampled cells.
pub const SAMPLE_SEED: u64 = 0xD1B54A32D192ED03;

/// Increment of the SplitMix64 state.
pub const SPLITMIX_GAMMA: u64 = 0x9E3779B97F4A7C15;

/// The SplitMix64 output function applied to a state.
pub open spec fn splitmix_mix(z: u64) -> u64 {
    let z1 = wrapping_mul(z ^ (z >> 30u64), 0xBF58476D1CE4E5B9);
    let z2 = wrapping_mul(z1 ^ (z1 >> 27u64), 0x94D049BB133111EB);
    z2 ^ (z2 >> 31u64)
}

/// The SplitMix64 state after `k` steps from `seed`.
pub open spec fn splitmix_state(seed: u64, k: nat) -> u64 {
    ((seed + k * SPLITMIX_GAMMA) % 0x1_0000_0000_0000_0000int) as u64
}

/// The `k`-th output (counting from 1) of SplitMix64 started at `seed`.
pub open spec fn splitmix_output(seed: u64, k: nat) -> u64 {
    splitmix_mix(splitmix_state(seed, k))
}

/// The `i`-th sampled cell of an `n` by `n` matrix, as (row, column).
pub open spec fn sample_cell(n: nat, i: nat) -> (nat, nat) {
    (
        (splitmix_output(SAMPLE_SEED, 2 * i + 1) as nat % n) as nat,
        (splitmix_output(SAMPLE_SEED, 2 * i + 2) as nat % n) as nat,
    )
}

/// Advances a SplitMix64 state by one step and returns the output for the new state.
pub fn splitmix64(state: &mut u64) -> (r: u64)
    ensures
        *final(state) == wrapping_add(*old(state), SPLITMIX_GAMMA),
        r == splitmix_mix(*final(state)),
{
    *state = state.wrapping_add(SPLITMIX_GAMMA);
    let mut z = *state;
    z = (z ^ (z >> 30)).wrapping_mul(0xBF58476D1CE4E5B9);
    z = (z ^ (z >> 27)).wrapping_mul(0x94D049BB133111EB);
    z ^ (z >> 31)
}

/// One step of the state is one more increment, modulo 2^64.
pub proof fn lemma_splitmix_state_step(seed: u64, k: nat)
    ensures
        wrapping_add(splitmix_state(seed, k), SPLITMIX_GAMMA) == splitmix_state(seed, k + 1),
{
    let m = 0x1_0000_0000_0000_0000int;
    let a = seed + k * SPLITMIX_GAMMA;
    lemma_mod_bound(a, m);
    lemma_add_mod_noop(a, SPLITMIX_GAMMA as int, m);
    lemma_small_mod(SPLITMIX_GAMMA as nat, m as nat);
    let s = a % m;
    assert(a + SPLITMIX_GAMMA == seed + (k + 1) * SPLITMIX_GAMMA) by (nonlinear_arith)
        requires a == seed + k * SPLITMIX_GAMMA;
    if s + SPLITMIX_GAMMA < m {
        lemma_small_mod((s + SPLITMIX_GAMMA) as nat, m as nat);
    } else {
        vstd::arithmetic::div_mod::lemma_fundamental_div_mod_converse(
            s + SPLITMIX_GAMMA,
            m,
            1,
            s + SPLITMIX_GAMMA - m,
        );
    }
}

/// The cells of an `n` by `n` matrix that are recomputed on the CPU: always
/// the same `SAMPLE_COUNT` cells for a given `n`, each inside the matrix.
pub fn sample_cells(n: u32) -> (cells: Vec<(usize, usize)>)
    requires
        n > 0,
    ensures
        cells.len() == SAMPLE_COUNT,
        forall|i: int|
            0 <= i < SAMPLE_COUNT ==> (#[trigger] cells@[i]).0 < n && cells@[i].1 < n,
        forall|i: int|
            0 <= i < SAMPLE_COUNT ==> ((#[trigger] cells@[i]).0 as nat, cells@[i].1 as nat)
                == sample_cell(n as nat, i as nat),
{
    let mut state: u64 = SAMPLE_SEED;
    let mut cells: Vec<(usize, usize)> = Vec::new();
    let mut i: usize = 0;
    proof {
        lemma_small_mod(SAMPLE_SEED as nat, 0x1_0000_0000_0000_0000nat);
    }
    while i < SAMPLE_COUNT
        invariant
            n > 0,
            i <= SAMPLE_COUNT,
            cells.len() == i,
            state == splitmix_state(SAMPLE_SEED, 2 * i as nat),
            forall|j: int| 0 <= j < i ==> (#[trigger] cells@[j]).0 < n && cells@[j].1 < n,
            forall|j: int|
                0 <= j < i ==> ((#[trigger] cells@[j]).0 as nat, cells@[j].1 as nat)
                    == sample_cell(n as nat, j as nat),
        decreases SAMPLE_COUNT - i,
    {
        proof {
            lemma_splitmix_state_step(SAMPLE_SEED, 2 * i as nat);
            lemma_splitmix_state_step(SAMPLE_SEED, 2 * i as nat + 1);
        }
        let row_out = splitmix64(&mut state);
        let row = (row_out % (n as u64)) as usize;
        let col_out = splitmix64(&mut state);
        let col = (col_out % (n as u64)) as usize;
        cells.push((row, col));
        i = i + 1;
    }
    cells
}

} // verus!
