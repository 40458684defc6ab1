# cvd

`cvd` creates, converges, verifies and destroys test scenarios described in a
`cvd.yml` (or `cvd.yaml`) file, records every run durably, and replays the
report of a recorded run.

The library in `src/` is written in Verus and verified:

- `cli` — the command-line grammar, with a model parser it is proved against;
- `config`, `schema`, `value`, `selector`, `paths` — loading and validating a
  configuration document, resolving scenario includes, scenario paths;
- `state`, `repository` — the run state, its invariants and operations, run
  directories, run IDs and fingerprints;
- `lifecycle` — the scenario runner; every scenario it enters is disposed of
  (its resources went through its destroy phase), whatever the adapters do;
- `report` — run output lines and the replayed state report;
- `provisioner`, `converger`, `verifiers`, `inventory` — adapter decisions:
  accepted create results, destroy targets, resource grouping, runtime
  inventory views and `ANSIBLE_INVENTORY` values;
- `keep` — the keep-mode policy and its notification messages.

`app/` is the `cvd` program around it: argument handling, files, processes
(`ansible-playbook`, `ansible-inventory`, `ansible-config`, `pytest`),
serialization with serde, and the keep-mode signal handlers.

`tests/` holds the tests; they run against the compiled library.

A scenario's phases are `create`, `prepare`, `converge`, `idempotence`,
`verify`, `cleanup` and `destroy`, and a scenario may nest others. The
configuration format has no `side_effect` phase, no sequences and no phase
timeouts: a document that names one is refused as an unknown field, as the
configuration loader always did. Side effects belong in a nested scenario's
`converge` phase, whose checks then run in that scenario's `verify`.
