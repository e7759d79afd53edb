# mdevctl core

The verified core of a management utility for mediated devices (sub-devices of a parent
device such as a vGPU, created through sysfs and persisted as JSON definitions under
`/etc/mdevctl.d`).

- `src/` is the library, verified with Verus: the device model and its JSON configuration
  (`mdev`), the ordered grouping of devices by parent (`groups`, `sorting`), the filesystem
  layout and device selection (`environment`), the callout-script protocol as a state machine
  (`callouts`), the decisions and output of each command (`commands`), errors and their text
  (`error`), and text, JSON and UUID helpers (`text`, `json`, `ids`).
- `app/` is the command-line program around it: argument parsing, logging, reading sysfs and
  the configuration directory, running scripts, and writing files.
- `tests/` exercises the library on concrete scenarios.
