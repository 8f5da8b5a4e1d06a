# boxed

A container runtime for Linux (namespaces, cgroups v2, pivot_root,
capability dropping, seccomp-bpf), whose decisions are written in Verus and
proved against their contracts.

- `src/` is the verified library:
  - `seccomp`, `bpf`: OCI seccomp profiles resolved to system call numbers
    and compiled to a classic BPF filter; a proof shows that the filter's
    verdict for every architecture and call number is the one the profile
    (or the default deny list) asks for; calls made through the x32 ABI are
    killed, so no call escapes the list under another number.
  - `cgroups`: the controllers a set of limits needs, the values written to
    each controller file, and the `--io-max` syntax.
  - `capabilities`, `rootless`, `namespace`, `process`, `overlay`: the set
    of capabilities kept, ID mappings, clone flags, exit codes and wait-loop
    steps, and the stacking order of image layers.
  - `text`: decimal rendering and parsing, splitting and joining.
- `app/` is the program: argument parsing, system calls, files and mounts.
- `tests/` exercise the library on concrete values.
