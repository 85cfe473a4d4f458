# way_edges

The logic of the way-edges Wayland daemon, verified with Verus.

- `src/` is the verified library: widget transitions and mouse state
  (`transition`, `mouse`), placement along screen edges (`edge`), grid layout
  and the tray grid (`grid`), pointer tracking over boxes of widgets (`hover`), the outlook window
  around a box (`outlook`),
  tray menu state (`menu`), tray icon pixels (`icon`), the border blur of images (`blur`), the callback
  registries of the monitors (`registry`, `hypr`, `pulse`, `pulse_devices`,
  `backlight`, `tray`), and `/proc/meminfo` parsing (`meminfo`).
- `app/` is the daemon around it: the Hyprland listener, the PulseAudio main
  loop and volume changes, backlight devices and file watches, the tray host client, and the
  floating-point layout of sliding widgets.
- `tests/` exercises the library on concrete values.
