# noesar-sandbox

Per-capability process isolation: a capability token's own limits are applied to a process
*before* the command it runs exists, and the process then execs that command. The decisions are
verified with [Verus](https://verus-lang.github.io/verus/guide/).

## Why a separate process

A long-lived server cannot narrow itself for one request without narrowing itself for every later
one. This program exists for one spent capability token only: it applies the limits to itself and
then execs the command, which inherits them and never runs an instruction under looser ones.

## Isolation ladder

| Tier | Mechanism | Requires |
|---|---|---|
| 0 | `RLIMIT_*` and `PR_SET_NO_NEW_PRIVS` | POSIX/Linux only |
| 1 | seccomp system call filter | `CONFIG_SECCOMP_FILTER` |
| 2 | Landlock filesystem confinement | `CONFIG_SECURITY_LANDLOCK` |
| 3 | cgroup v2 accounting | a delegated writable cgroup subtree |

Tiers above 0 are applied opportunistically when the host offers them; what the kernel actually
accepted is what gets reported. A tier that was requested and refused is named with its errno, never
silently claimed, and the command is then not started.

- The filter refuses a fixed list of system calls with `EPERM`.
- Landlock refuses making device nodes, wherever it is tried: a token names no files, so the ruleset
  holds no rule. As under every ruleset, files are not moved or linked between directories (`EXDEV`).
- The control group is one of the process's own, below the group it is already in, so the
  container's limits still hold. It stays behind, empty, for the parent to read and remove.

The group is joined and the ruleset opened before any limit is set, so that a low limit on open files
does not stand in their way. Neither the filter nor the ruleset is put in force where
`PR_SET_NO_NEW_PRIVS` was refused; both are then named with that errno. There is no filter where the
system call table of the declared architecture is not the one the library was built with.

## Usage

```sh
noesar-sandbox --detect
# probes the host and prints, as JSON, which tiers are available; installs nothing, starts no child

noesar-sandbox --spec limits.json -- <command> [args...]
# applies the limits in limits.json to this process, then execs <command>
```

`--spec` takes a file rather than inline arguments so limits never appear in a process listing.

## Layout

`src/` is the verified library. It decides and records: every system call is described by a value
(`KernelCall`) and its outcome comes back as a value (`Reply`).

- `limits`: the limits, the scope check (`within`) and the ceiling check (`exceeds`).
- `platform`, `kernel`: the target, the denylist, and the constants taken from `libc`.
- `support`: what a host offers, and its tier.
- `ceiling`: the container's own limits.
- `seccomp`: the filter program, and the proof of what it lets through.
- `group`: the control group that a command is accounted in.
- `session`, `applied`: which calls are made, in which order, and what is recorded of them.
- `spec_file`, `json`, `number`, `text`: reading a spec and writing the reports.
- `launch`: from a command line to a confined command.

`app/` makes the system calls. The constants come from `libc`'s Linux tables, so the library is
built for Linux with 64-bit resource limits; the decisions for other systems are stated all the same.
