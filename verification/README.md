# Time Strike

Time Strike turns a deadline into control signals for an autonomous agent: how much work
to start, when to validate, when to converge and when to stop. The library under `src/` is
written in [Verus](https://github.com/verus-lang/verus) and verified; `app/` serves it over
MCP stdio.

## The library

| Module | What it holds |
|---|---|
| `duration`, `number`, `decimal`, `text`, `names` | Spans in nanoseconds, numbers and their notation, texts and sets of names |
| `schedule`, `task`, `metadata`, `error` | Requests, reports and snapshots of tasks |
| `rules` | What every request to a task does, as functions from tasks to tasks |
| `registry`, `lifecycle` | The tasks in memory, and the requests carried out on them |
| `recovery` | Snapshots, and what they give back |
| `clock`, `store`, `manager` | Clocks, snapshot stores, and the manager that uses both |
| `policy` | The temporal policy: reserves, modes, schedule pressure, action limits |
| `plan`, `advice`, `session` | Plans, what a tick advises, and one agent's dealings with the manager |
| `enforcement` | One-shot action leases on the host's side |
| `laws`, `reservations`, `history` | What holds of several requests together, and of any number of them |

Time is counted in whole nanoseconds. Numbers that callers write as floating point are
taken to the nearest billionth (`Amount`), or kept as bit patterns where they have to be
compared exactly (`Number`). Two times that lie one nanosecond apart count as equal
wherever a boundary is tested.

Managers, sessions and ledgers are changed through `&mut`; threads that share one put it
behind a lock. A clock says in `shows` which readings it may give, and a store in `takes`
and `gives` how it may answer; contracts speak of both through these.

Each request to the manager is answered at one reading of its clock. What the clock, the
wall clock and the store answer is not known beforehand, so the contracts say what holds
for every answer; the functions that take such an answer as an argument say exactly what
follows from it. A manager's `log` records every snapshot that its store was handed.

## The program

`app/main.rs` is the MCP server with the tools `start_task`, `tick`, `checkpoint`,
`adjust_task` and `finish_task`. It reads

- `TIME_STRIKE_CONFIG`: the path of an optional TOML configuration;
- `TIME_STRIKE_STATE`: the path of the snapshot file, which switches persistence on;
- `TIME_STRIKE_DEADLINE_UNIX_MS`: the host's absolute deadline;
- `TIME_STRIKE_ALLOW_BUDGET_INCREASE`: whether agents may raise budgets.
