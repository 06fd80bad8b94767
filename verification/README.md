# ipu-codegen

Lowering of planned tensor programs to schedules for the tiles of a device: which
tile holds which part of which value, what is exchanged, what is copied, and
which kernels run, in which order. The library is written in Verus. Every
function states what it returns over a mathematical model of its data, and is
proved to do so.

## Layout

- `src/` is the library.
  - `tensor`, `mid`, `low` and `target` hold the data: tensor types, planned
    programs, schedules, and what lowering asks of a device. `linear` is a device
    that stores tensors row by row.
  - `program::lower_to_tiles` lowers a whole program. `region` walks its
    operations; `conversion` and `fallback`, `heads`, `pointwise`, `attention*`,
    `gemm*` and `reduction_*` lower each kind of them.
  - `blocks` and the `block_*` modules, `copy_lowering`, `materialize`, `relay`,
    `products`, `computes` and `views` work on graphs of blocks.
  - `memo` and `cache` keep results that were computed before.
  - `schedule*` prove that every lowered program is sound. `coverage`, `carriage`,
    the `*_coverage` modules, `block_carriage` and `relay_delivery` prove that
    nothing that was asked for is left out.
- `tests/` runs the library on concrete programs.
- `app/` holds what surrounds it: serialized policies, error messages, tracing and
  the default scale of attention.

`memo` is the one module with trusted items: a table of fingerprints, and the
fingerprint of a key. Keys are compared in full, so a lookup gives back only what
was recorded for an equal key, whatever the fingerprint is.
