# TF2 Frag Demo Helper

Finds frags worth a clip in Team Fortress 2 demos, ranks them, and records them offline with HLAE.

## Layout

- `src/` is the library, written and proved in Verus. It holds what is decided and computed; it reads
  and writes no files and starts no programs.
- `tests/` runs the library on concrete values.
- `app/` is a console program around the library: files, processes, JSON, and the camera geometry that
  takes floating point.

## The library

| Part | Modules |
| --- | --- |
| Events of a demo | `record`, `events`, `modes`, `rounds`, `deaths`, `tracking`, `schema` |
| From kills to candidates | `evidence`, `motion`, `followups`, `weapons`, `scoring`, `sequence`, `candidates`, `bookmarks`, `analysis` |
| Browsing | `models`, `filter`, `view`, `details`, `form`, `status` |
| Batches | `scheduler`, `batches`, `preflight`, `space` |
| Recording | `settings`, `encoding`, `shortcuts`, `clips`, `capture`, `queue`, `scripts`, `vdm`, `prepare`, `launch`, `profile`, `monitor`, `finalize`, `director` |
| What was recorded | `hashes`, `recordings`, `recovery` |
| Camera | `tracks`, `shots`, `camera` |
| Shared | `text`, `number`, `double`, `floating`, `order`, `arrange`, `keyed`, `roots` |

What holds of the library as a whole is stated by the public proof functions whose names begin with
`law_`.

## Conventions

- Scores are hundredths of a point. Other decimals are double-precision numbers, and loads are
  single-precision ones; both are held and computed as integers, so that every rounding is stated.
- Hashing is done by the `sha2` and `hex` crates, and letters beyond ASCII are folded by the standard
  library; what is taken for granted of them is said where they are called.
