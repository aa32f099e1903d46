# safeshell

The deterministic core of a transactional shell sandbox, verified with
Verus. Every command line is parsed by a restricted grammar, classified by
support tier, checked against containment rules and risk-rated before
anything runs. The library also holds the shell's commands over a layered
view of the session's files, the diff a simulation produces, and the
rollback of the checkpoint stack.

## Layout

- `src/` — the verified library. Where a function works on the layer
  directories or runs a host filter, whose operations carry no contract,
  its contract states what holds whatever those operations return; the
  rollback functions state the stack they leave on success, under the
  contract of the simulation backend's restore.
  - `parser` — tokenizing and parsing a command line (quotes, variables,
    pipelines, redirections, connectors), refusing every construct the
    shell does not implement.
  - `policy` — support tiers, containment checks, risk classification,
    the decision for one command and for a pipeline, and post-simulation
    escalation.
  - `handlers` — the shell's commands over a layered file view, the
    session state and the host's coreutils filters.
  - `simulation`, `executor`, `rollback` — the layered resolver with
    copy-up and whiteouts, the diff of a run, the checkpoint stack and the
    recovery targets.
  - `orchestrator`, `ipc`, `audit` — the decisions of the command pipeline,
    the shapes handed to the front end, and the hash-chained audit log.
  - `sandbox` — what the capability probes report, cgroup and session
    setup decisions, the worker's request dispatch and message framing.
  - `ai` — what a planner is asked, why an analysis is skipped, and where
    its plan diverges from what the simulation found.
- `tests/` — tests of the library through its public interface.
- `app/` — the command-line front end and the host side: real layer
  directories, coreutils filters, the policy file and the planner's JSON.

## Checking

The library is verified by running Verus on `src/lib.rs`; the tests and
the front end build against it as an ordinary crate.
