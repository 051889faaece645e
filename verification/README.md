# wg-vanity

Generate WireGuard keypairs whose Base64 public key contains a chosen string
near the beginning. The library is written in Verus: what each function returns
is stated in its contract and proved.

## Layout

- `src/` is the verified library. Calls into `regex`, `regex-automata`,
  `base64`, `x25519-dalek` and the standard library stand behind small wrappers
  whose doc comments say what is claimed of the call.
- `app/` holds the programs: argument handling, printing, threads, CUDA and MPI.
- `tests/` runs the library on concrete values.

## Programs

The executable answers to four names.

- `wg-vanity NAME` searches on all CPU cores until a match, a limit
  (`--trials`, `--duration`) or Ctrl-C. `--in` sets the range, `--glob` and
  `--regex` the syntax, `--case-sensitive` keeps letter case.
- `wg-vanity-cuda NAME` searches on the visible GPUs; `--gpus` takes fewer of
  them, `--batch` and `--batches` size the launches. The kernels are loaded from
  `vanity_x25519.ptx`, or from the file that `WG_VANITY_PTX` names.
- `wg-vanity-benchmark` measures the throughput of the `cpu` or `cuda` backend.
- `field-steps` measures chained point additions.

Built with `--cfg mpi`, the searches are shared among MPI ranks, and rank 0
reports the match and the work of all ranks.
