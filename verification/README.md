# tauri_plugin_system

System information for Tauri applications — operating system, processor,
memory, disks, graphics adapters, battery, network interfaces, temperature
sensors and displays — on Linux, macOS and Windows.

The library under `src/` is written in Verus. It holds everything that is
decided or computed: the parsing of `/etc/os-release`, `/proc` and `/sys`
files and of `xrandr`/`lspci` output, the records built from `sysctl`, Mach,
`getmntinfo`, `diskutil` and `system_profiler` answers on macOS and from
Win32 answers on Windows, the formatting of addresses, the table in which
network interfaces are gathered from the system's interface list, and the
choices between sources (one adapter per DRM card or else `lspci`, `xrandr`
or else DRM connectors, the first power supply that is a battery). Each public function states its result in its
`ensures` clause, over spec functions that say what the files and answers
mean, and Verus proves the code against it.

- `text`, `numbers`: string and number handling with the semantics of the
  standard library (`lines`, `split_whitespace`, `trim`, `parse`, `{:x}` …).
- `linux` (with `linux::gpu`, `linux::power`, `linux::display`), `macos`,
  `windows`: the records of each platform.
- `network`: address text and the interface table, which keeps one entry per
  interface name (a type invariant) and takes in interface-list records.
- `json`: the JSON values of `system_profiler` documents and the lookups on
  them; `app/` parses the text into them with `serde_json`.
- `models`: the records handed out.
- `laws`: properties that hold across functions (what a later line or
  reading does to an earlier one, what every reported display has, which
  `xrandr` output each display comes from, which interfaces a list of records
  names and with which state, what text reads back as).

`app/` is the Tauri plugin around the library: the commands, the plugin state,
and per platform the file reads, system calls and commands (`diskutil info`
tells whether a macOS volume is on solid-state storage), the JSON parse, and the
floating-point figures (percentages, degrees, dots per inch, refresh rates).

Tests are under `tests/`.
