# device_faker

Shows chosen Android applications another device: other system properties, other fields of
`android.os.Build` and another display density.

- `src/` decides. The contracts there are checked by Verus, except for those of two functions of
  the standard library, which are believed: `String::push` (in `text`) and `String::from_utf8_lossy`
  (in `tool`).
  - `config`, `profile`, `fingerprint`: which profile an application gets, and what a fingerprint
    adds to it.
  - `properties`, `property_map`, `hooks`: which properties and build fields a profile stands for.
    `property_laws` states what holds of them as a whole.
  - `protocol`, `session`, `change`, `density`, `tool`, `upkeep`, `error`: the companion process,
    which changes the device while an application has the focus and brings it back afterwards.
    `session_laws` states what holds of that.
  - `maps`, `areas`, `patch`, `insert`, `cow`: new values in the memory of one process only.
    `run_laws` and `cow_laws` state what a whole run comes to.
  - `text`, `split`, `number`, `string_map`: texts, numbers and maps.
- `app/` acts: sockets, processes, memory mappings, the Java runtime. It carries out the steps that
  the library names and reports what came of them.
- `tests/` runs the library.
