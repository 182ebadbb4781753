# sysgraph

Terminal graphs of system activity (CPU, memory, disk, network, battery,
GPU, ping), drawn with braille characters.

- `src/` is the verified library: text handling (`text`, `fields`), the
  monitors' parsing and bookkeeping (`cpu`, `memory`, `sensors`, `pci`,
  `monitors`, `ping`), status-line fitting (`truncate`) and the graph frame
  (`graph`). Verus checks every function against its contract, except the
  few small wrappers around std, `regex`, `unicode-width` and `termion`,
  whose contracts are trusted and say in their doc comments what they claim.
- `app/` is the program around it: reading `/proc` and `/sys`, running
  `lscpu`, `intel_gpu_top`, NVML and ICMP, floating-point scaling, and the
  terminal loop. Run it as `sysgraph <monitor> [args]`.
- `tests/` exercises the library on concrete values.
