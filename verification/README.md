# rusting_brain

The decisions of a deep-learning library, verified with Verus: what is read and
written, in which order, and by whom. The numbers themselves are floating point
and are left to the caller, who hands in how two of them are added, compared or
shown.

## Layout

- `src/` is the library. Every function states what it returns in `requires`
  and `ensures`; what holds across functions is stated by the public proof
  functions whose names start with `law_`.
  - Meshes: `mesh`, `edges`, `quadrics`, `simplify*`, `queue`, `compact`, `march`,
    `watertight`, `bvh*`, `obj*`, `fields`.
  - GLB containers: `glb`, `gltf*`, `json`.
  - Language models: `batch`, `masked_lm`, `corruption*`, `losses`, `matrix`.
  - Mixtures of experts: `moe*`, `mixing*`.
  - A denoising transformer: `mmdit*`.
  - Passes of a CUDA device, as lists of steps: `device`, `tiles`, `gpu_*`.
  - Training a dense network on a Metal device: `metal_*`.
- `app/` is the ordinary Rust around it: files, floating point, chance, threads
  and the CUDA driver.
- `tests/` runs the library on numbers. The passes of the device are interpreted
  step by step and compared with formulas and finite differences.

## What is taken on trust

Calls into other crates stand behind small functions whose contracts are not
proved: reading and writing JSON with `serde_json` (`json`), shuffling with
`rand` (`metal_training`), and `select_nth_unstable_by_key` of the standard
library (`bvh`). The comment above each says what is claimed.
