# s-compositor

A Wayland compositor and desktop shell. The library in `src/` holds the logic,
with contracts that Verus proves; `app/` holds the threads, sockets, D-Bus
services and files around it.

- `src/keybind.rs`, `src/keycode.rs`, `src/config.rs`: shortcuts, key codes and
  the settings file.
- `src/wayland/`: what the protocol engine tracks of its clients, how a tree of
  surfaces becomes one picture, and what commands ask of the seat.
- `src/desktop.rs`, `src/desktop/`: the windows on the screen, stacking, focus,
  snapping, and what shortcuts do.
- `src/shell/`: window and workspace models.
- `src/render/`: pixel formats, drawing and cropping, the texture cache.
- `src/files/`: the file browser, the file dialog, copying and the trash.
- `src/notify.rs`, `src/network.rs`, `src/tray.rs`, `src/services.rs`,
  `src/sysmon.rs`, `src/icons.rs`, `src/launch.rs`, `src/launcher.rs`,
  `src/clock.rs`, `src/calendar.rs`: the panel and the session services.
- `src/text/`, `src/table.rs`: strings, numbers, paths, sorting, and a small map.
- `src/slick/`: the compact edition of the compositor.

Coordinates on the screen are floating-point numbers. The library is generic over
them and decides in whole numbers; `app/geometry.rs` computes.
