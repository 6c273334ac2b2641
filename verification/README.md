# s2binlib

Resolves code and data in Source 2 game binaries (PE and ELF, 64-bit):
IDA-style pattern scans, file offset / virtual address / process address
arithmetic, string and cross-reference tables, vtable discovery through MSVC
and Itanium RTTI, function starts, unique code signatures, and the reports
built on them. The library's functions carry contracts that Verus proves;
the calls into `object`, `iced-x86`, `hashbrown`, the two demanglers and a
few std functions go through small wrappers marked
`#[verifier::external_body]`, whose contracts Verus believes without proof.

Layout:

- `src/` — the verified library. `s2binlib.rs` holds the `S2BinLib` state
  and its address arithmetic; `scan.rs`, `vtfind.rs`, `xrefs.rs`, `funcs.rs`,
  `sig.rs`, `strings.rs`, `vtdump.rs` and `dumps.rs` add its queries;
  `msvc.rs` and `itanium.rs` read RTTI from an `ImageView` (`view.rs`);
  `objfile.rs`, `decode.rs`, `jit.rs` and `store.rs` hold the trusted calls
  into `object`, `iced-x86`, `hashbrown` and the demanglers; `laws.rs` states
  and proves the properties that relate several operations.
- `tests/` — tests on small ELF images built in memory.
- `app/` — the command-line dumper, and what needs the running process:
  reading binaries from disk, listing loaded modules, reading and patching
  memory, executable trampolines, and JSON output.
