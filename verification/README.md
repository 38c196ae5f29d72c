# litebox_windows_userland

The logic of running a Linux guest on Windows without privileges: how a forked child is started,
given its memory and kept from touching its parent's, how the guest's network packets become
ordinary sockets, and how its display is shown and driven from outside. The library is written in
Verus: what each function does is stated in its contract and proved.

- `src/` is the verified library.
  - `request`, `reply`, `pipe`, `presenter`: the lines that control the display's window.
  - `presentation`, `keys`: frames, window events and input codes.
  - `packets`, `net`: the gateway between the guest's packets and sockets.
  - `relocations`, `instruction`, `fork_verify`: stepping a forked thread and repairing the
    addresses that it carried over from its parent.
  - `process_fork`, `process_spawn`, `process_observe`: forking into a separate process.
  - `lazy_fork_commit`, `guard_cow`: filling a child's memory when it is first touched, and keeping
    the parent's writes out of it.
  - `xproc_sync`, `ctxwatch`: a lock shared between processes, and hardware watchpoints.
  - `text`, `numbers`, `bytes`, `memory`: what the others are built on.
- `app/` is the program around it: windows, sockets, pipes, threads and system calls. The library
  decides what is done next, and the program does it.
- `tests/` runs the library on concrete values.

Public proof functions named `law_...` state what holds of several functions together.
