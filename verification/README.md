# coresched

A CPU core scheduler for Linux. It hands out physical cores to CFD jobs and logical CPUs to
threaded or Python jobs, by priority, and binds each job to its CPUs.

- `src/` is the library, verified with Verus: the scheduler's state and what happens to it, the
  command line, the reports, and the reading of logs. `soundness` states what stays true of the
  state throughout: the allocation tables tell exactly what the running jobs hold, no CPU is held by
  two jobs, and every job stands in one place.
- `app/` is the program around it: the state file and its lock, processes, and the arithmetic on
  simulated times.
- `tests/` are the library's tests.

## Priorities and reserved cores

| Priority | Typical use        | Cores |
|----------|--------------------|-------|
| P0       | sweeps, by default | all but the last two and the reserved ones |
| P1       | batches            | all but the last two and the reserved ones |
| P2       | calibration        | the second-to-last first, then the reserved ones, then the others; not the last |
| P3       |                    | the last first, then all others |

Reserved cores are closed to P0 and P1 and preferred by P2. By default the last quarter of the cores
is reserved, on machines with at least four cores. `reserve-core` sets the reservation and
`reserve-core --clear` lifts it; the last two cores stay closed to P0 and P1 in any case. Jobs that
run keep their CPUs. A request is admitted where its priority could be given that many units on an
idle machine under the current reservation.

The queue is served from the highest priority down and, within a priority, in the order of arrival.
A job that waits with `run` goes before queued jobs of lower priorities. A queued job that cannot be
given all of its units stays queued.
