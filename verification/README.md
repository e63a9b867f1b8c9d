# cfw

A callback framework. Tasks read messages from channels and publish messages to
them; graphs join tasks into thread pools; a simulation runs a graph
deterministically, step by step, in simulated time.

- `src/` is the library. Every function in it is verified with Verus against its
  `requires` and `ensures`. Laws that relate several functions are public proof
  functions whose names start with `law_`.
- `tests/` runs the library on concrete values.
- `app/` is ordinary Rust around it: the system clock, the step thread,
  shared-memory ports, JSON logs, and the generator behind `#[task_callback]`.

Where to start in `src/`:

- `pub_sub` and its companions (`pub_sub_io`, `pub_sub_ops`, `pub_sub_spans`,
  `pub_sub_laws`): publishers, subscribers, arenas and reference counts.
- `connect`, `connect_graph`, `task_builder`, `task_graph_builder`, `dangling`:
  how graphs are put together, sized and diagnosed.
- `schedule`, `simulation`, `simulation_executor`: virtual thread pools, steps
  and the advance of time. `room`: arenas do not run out. `alike`, `determinism`,
  `sample_determinism` and `replay_determinism`: equal graphs take equal steps.
- `iox2*`, `simulation_iox2`: channels over shared memory.
- `log_*`, `loggable`, `execution_log`, `json_values`: logging and replay.
- `signature`, `callback_plan`: what is generated for a task.
