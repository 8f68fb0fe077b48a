# marionette

A user-space scheduling agent for Linux's ghOSt scheduling class, built for
testing concurrent programs: each enclave CPU gets an agent that reads the
kernel's task messages, keeps track of the tasks and lets a policy pick which
runnable task to run next (PCT with random priorities and change points, a
replayable random policy, or a recorder around either).

The library under `src/` is verified with Verus:

- `topology`: CPU bitmaps (`CpuList`), their walks and kernel mask text, and the
  machine topology built from what sysfs reports.
- `gtid`, `message`, `requester`, `scheduler`: task identifiers, decoded kernel
  messages, run-request transactions and task records, as plain values.
- `schedulers`: the `Scheduler` trait and its policies.
- `agent`: the per-CPU agent as a state machine: a message or a scheduling step
  goes in, the new task records and the work for the kernel come out.
- `enclave`, `ghost`, `text`: the decisions and parsing around enclave creation,
  agent attachment and status word regions.

`app/` is the program around it: it mounts the ghOSt file system, maps the
kernel's shared memory, issues the ioctls the agent asks for and runs one thread
per agent.
