# raven_controls

Keyboard light and fan control for Linux machines, with the logic proved by
Verus.

Every control is found through a kernel interface rather than a vendor SDK:
the LED class for keyboard lights, hwmon for fan duty and fan modes, ACPI
cooling devices, the ACPI platform profile, and a small table of documented
vendor attributes (ASUS throttle policy and fan boost, the ThinkPad procfs
fan). Where a machine offers nothing, a diagnosis says which kernel module
would, and whether it is built, loaded, or missing from the kernel.

## Layout

- `src/` — the verified library.
  - `sysfs.rs` models a filesystem tree (the live one or a captured one) with
    reads, listings in natural order, and writes that a captured tree refuses.
    Writes are journalled on the model; the program carries each operation's
    writes out on the machine in order, and after each one `carry_step` says,
    from what the attribute read back as, whether the next is made.
  - `backlight/`, `fan/` — one module per kernel interface; each states what it
    discovers and what a set writes as spec functions over the tree.
  - `provider.rs` — the machine as a whole: discovery, one control per id, and
    `set`, which checks the value and writability before any write.
  - `guard.rs` — taking a fan into manual control and handing it back.
  - `diagnose.rs` — what would give a bare machine fan control.
  - `probe.rs` — the whole `--probe` report, which the program only prints.
  - `daemon.rs`, `client.rs`, `window.rs`, `capture.rs`, `config.rs`,
    `theme.rs` — the decisions of the daemon (which channel a request drives,
    whether it must be taken first, what one control step writes), the
    client and the window.
- `app/` — the program around the library: sockets, signals, D-Bus, files,
  the GTK window, and the floating-point fan-curve engine. The daemon's
  supervisor hands every fan it holds back when it is dropped.
- `tests/` — scenarios, including discovery on captured trees of ten machines.
