# epics-base-rs

The server-side core of an EPICS IOC written in Verus: the text formats,
rules and decisions of the IOC, each with a contract proved by Verus.

## Layout

- `src/` — the verified library.
  - `text`, `scan`, `number`, `name_map`: character-level helpers, decimal
    numbers and an insertion-ordered string-keyed map.
  - `record`, `common`, `recgbl`: record field types, links, common record
    fields and their get/put, alarm bookkeeping and monitor event masks.
  - `database`: PV names, link selection for fanout-style records, the scan
    index, the registry of external link backends, the record database
    (records by name behind the `Record` trait, `CP` links), the dispatches
    of the multi-output record types, the decisions of record processing
    (disable, simulation, output routing, events) and the processing chain
    as a state machine (input, process, output, dispatches, forward link,
    `CP` targets, `RPRO`, asynchronous completion).
  - `db_loader`: the `.db` grammar, macro substitution and `include` /
    `substitute` directives.
  - `access_security`: the access-security configuration language and its
    access decision.
  - `autosave`: request files, macros, save files, backup rotation, save
    sets and their triggers.
  - `iocsh`: shell tokenizing, environment substitution, redirection,
    macro strings and glob matching.
  - `device_support`: soft device types and read outcomes.
- `app/` — ordinary Rust around the library: files, the environment, the
  interactive shell, floating-point values and the loop that drives the
  processing chain.
- `tests/` — tests of the library.
