# dexbot-model

Robot profile identities, configuration composition and validation, URDF
structure and Vega model selection for Dexmate robots, written in Verus.
Every function under `src/` carries a `requires` / `ensures` contract that
Verus proves.

## Layout

- `src/` — the verified library.
  - `identity`: robot names to built-in profiles (`profile_for_robot_name`,
    `try_profile_for_robot_name`), with laws on case, spacing and the
    agreement of the total and fallible forms.
  - `json`, `text`, `provenance`: the value model (JSON documents as
    plain values), text helpers, and the per-path provenance map.
  - `merge`, `compose`: layer merging with deletion directives and the
    discovery-conflict rule; composition of profile, overlay, API and
    discovery layers. Laws: no directive survives a merge; a discovery
    layer never overrides a user or API record.
  - `checks`, `validate`: the validation rules; the dependency check
    passes exactly when no dependency chain starting at a runtime object
    holds more than 64 objects, whatever the order.
  - `plan`: the order in which the rules of a document run, with the
    floating-point range checks handed out as pending checks for the
    caller to make, followed by the first failing rule.
  - `urdf`, `urdf_read`, `xml`: joint rules, the event-driven parser of
    URDF structure (roots, links, joints, truncation, duplicates), and the
    reading of a URDF text from the events `quick-xml` reads, with every
    attribute and number in document order.
  - `yaml`: profile YAML read into the JSON value model (`serde_yaml`
    parsing and merge keys, `serde_json` conversion).
  - `vega`: hardware-aware model selection, which never guesses.
  - `diff`, `hash`, `migrate`, `paths`, `catalog`, `types`, `document`,
    `cli`, `error`: field-level diffs, the content hash of a configuration,
    schema migration (the chain of steps to the target version), resource
    paths, the bundled asset catalog, the data types and the error type.
- `tests/` — tests of the library on concrete values.
- `app/` — the `dexbot` command-line program: file and environment access,
  the `serde` copies of the records, the floating-point conversions and
  range checks, and the command dispatcher.
