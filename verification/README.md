# gpu_probe

The verified core of a reproducible GPU matrix-multiply benchmark: everything
that decides what goes into a result row, proved with Verus.

- `src/calendar.rs` – the proleptic Gregorian calendar as day numbers, and the
  proof that the civil-from-days computation finds the one date of a day number.
- `src/util.rs` – matrix-size normalization, `YYYY-MM-DDTHH:MM:SSZ` timestamps
  (and the proof that they sort like the times they name).
- `src/text.rs` – decimal and hexadecimal digits, zero padding, text order.
- `src/chars.rs` – strings as characters: trimming, building.
- `src/lockfile.rs` – the locked version of a package in `Cargo.lock`.
- `src/benchmark.rs` – tile size, FNV-1a hash of the kernel text (and the proof
  that changing one byte changes the hash).
- `src/verify.rs` – SplitMix64 and the fixed choice of the sampled output cells.
- `src/hardware.rs` – the hardware/software stamp built from adapter and host facts.
- `src/cli.rs` – command-line arguments and seed parsing.
- `src/store.rs` – values as written to SQLite.
- `app/` – the input and output around it: wgpu and sysinfo reads, the
  floating-point cross-check, the SQLite writer, the process arguments.
