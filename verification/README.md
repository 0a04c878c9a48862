# cordis

A plugin and service framework whose rules are verified with Verus.

An application is a tree of scopes. Each scope goes through three hands:

- a `Builder` assembles it: services, plugins, event handlers and hooks are registered, and what a
  plugin registered is taken back where it fails;
- a `Context` is a handle on it: services are looked up here and outwards, events bubble outwards;
- a `Runtime` owns its life: plugins start in the order of their dependencies and stop in reverse,
  and a scope is not cleaned up while child scopes of it are alive.

## Layout

- `src/` is the library. Every function in it has a contract, and Verus proves it. Nothing in it
  waits, locks or calls user code that may take time: starting, stopping, closing and notifying are
  step functions from state and event to state and action.
- `app/` drives those steps: it locks, awaits, spawns, catches panics and erases types.
- `tests/` runs the library: most files test one module, and `framework.rs` holds a small host and
  scenarios on whole scopes.

## Modules

| Module | Holds |
| --- | --- |
| `builder` | assembling a scope, checkpoints and rollback, validation |
| `schedule` | the start order and the layers of plugins |
| `context` | lookup in a scope and those around it |
| `service` | slots, collections, factories, changeable values |
| `runtime` | building, starting, stopping and abandoning a scope |
| `scope` | the life cycle, leases of child scopes, signals |
| `closing` | closing hooks, dispatched in bounded rounds |
| `closing_history` | what holds of closing hooks over the whole life of a scope |
| `tasks` | how background tasks end and what a stop reports |
| `event` | what comes of the results of event handlers |
| `notify` | bounded queues of notifications, one per subscriber |
| `registry` | named child scopes that several tasks share |
| `waiters` | waiting places that are reused |
| `outlet` | the ends of queues, signals and tasks of the task runtime |
| `error`, `id`, `plugin`, `text`, `hash` | what the others are made of |

## What is taken on trust

Only `outlet` and `tasks` call the task runtime, `tokio`: to make a queue and offer messages to it,
to raise a signal, to cancel a task, and to find the runtime that a thread is in. Their contracts
say what was handed over, what was answered, and which ends belong together; what the runtime then
does is left open.
