# multitap

A daemon that plugs physical input devices (game pads, keyboards) into
virtual game ports, through adapters that map each key, axis and wheel of
the device onto those of the port; and `multitapctl`, its command-line
client.

- `src/` is the library, verified with Verus: the configuration model, the
  transforms of events, plugs, automatic plugging, the registries of
  devices, ports and plugs, what the daemon does on each command and event,
  the framing of client messages, and the reading of kernel device events.
  The registries keep their entries in `slab` slabs.
- `tests/` runs the library on concrete configurations and events.
- `app/` is the program around it: reading the configuration files,
  polling signals, the command socket, udev and the input devices, and
  writing to the virtual devices and to the clients.
