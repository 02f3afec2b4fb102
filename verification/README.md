# cpu_monitor

The verified core of a Linux CPU monitor: a backend daemon that samples `/proc`
and sysfs and serves snapshots over HTTP, and a system-tray frontend that draws
an icon (CPU picture, temperature label, usage ring) and a menu.

`src/` is the library, proved with Verus:

- `text` — whitespace, trimming, lines and words as `str` defines them, number
  parsing and decimal notation;
- `cpuinfo`, `proc_stat`, `process`, `sensors` — reading `/proc/cpuinfo`,
  `/proc/stat`, `/proc/<pid>/stat` and the hwmon names; usage deltas; ranking of
  the busiest processes; choice of the CPU's temperature sensor;
- `sampler` — the state kept between two samples and what one sample gives;
- `pixels`, `icon` — premultiplied/straight pixel conversions, glyph blending,
  the icon's layout and colours, PNG encoding;
- `tray`, `menu` — byte counts, timestamps, icon file names, the tray's menu and
  tooltip.

`app/` holds what the library cannot: file and network I/O, the HTTP server,
the D-Bus tray, floating-point drawing with tiny-skia and glyph loading with
FreeType.
