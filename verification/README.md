# keyforge

Virtual HID devices over the Linux UHID interface, and the rules of a daemon
that mirrors a physical game controller onto one of them. The rules are written
in Verus and proved; the system calls and the Lua interpreter stand around them
as ordinary Rust.

- `src/` is the verified library.
  - `bytes`, `event`, `kernel`, `device`: the `uhid_event` wire format, in both
    directions, and transfers over a descriptor.
  - `layout`, `report`, `hid`: report descriptors, the reports that belong to
    them, and the proof that those of gamepads and keyboards declare as many
    bits as their reports hold.
  - `mirror`, `emit`, `source`, `session`: the mirror of a controller, what
    scripts emit on it, the controller's own events, and the daemon's rounds.
  - `registry`, `script`: the devices of scripts and what scripts ask of them.
  - `config`, `reload`, `options`: the configuration file, what its changes call
    for, and the command line.
  - `text`, `strmap`, `error`: what the others share.
- `tests/` runs the library on concrete values.
- `app/` is the daemon: system calls, the `uh` table of the Lua interpreter, and
  the main loop.

The functions named `law_..` state what holds of the library as a whole.
