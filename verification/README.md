# blinools

Runs untrusted programs in sandboxes on Linux. A sandbox is a microVM with its own kernel. Its
disk is an overlay over a root file system that stays as it is, directories of the host are
shared with it on request, and what it writes to its console is filtered before it reaches the
terminal.

## Layout

- `src/` is the library: all decisions, verified with Verus. Nothing in it touches the host. It
  is told what was observed and says what to do next.
  - `config.rs`: where files are kept, how the configuration files are layered
  - `sandbox/config.rs`, `sandbox/validation.rs`: the configuration of a sandbox and its rules
  - `sandbox/name.rs`: names
  - `sandbox/console/`: the escape sequence filter, the queues and the console
  - `sandbox/create.rs`, `sandbox/mod.rs`: creating, deleting, listing and pruning sandboxes
  - `sandbox/hypervisor/`: Cloud Hypervisor and QEMU, their arguments and their protocols
  - `sandbox/cloud_hypervisor.rs`: Cloud Hypervisor without anything around it
  - `sandbox/fs.rs`, `sandbox/passt.rs`, `sandbox/process.rs`: the helpers
  - `sandbox/lock.rs`, `sandbox/cgroup.rs`, `sandbox/table.rs`: locks, limits, the list
  - `text.rs`, `paths.rs`: texts and paths
- `tests/` runs the library.
- `app/` is the command line around it: files, sockets, processes, signals and the terminal.

## What is proved

Each public function states in its contract what it returns for every input. Beyond that, public proof
functions state what holds of the library as a whole. For example:

- whatever the guest writes, what reaches the terminal is UTF-8 without NUL and C1 controls, and
  an escape character in it introduces a control sequence or one of a few harmless escape
  sequences
- what the filter let through once it lets through unchanged
- in a whole run of the console nothing is lost, repeated or reordered
- neither the console nor the root device of a guest can be overridden on its command line
- shares are layered by their names, and the later layer wins
- a sandbox that runs is deleted only by force

What the `vte`, `garde`, `rand`, `tabled`, `serde_json` and `unicode-general-category` crates do
is stated in the contracts of small wrappers and believed there.
