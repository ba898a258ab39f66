# Windows App Blocker

Closes the Windows apps you choose during the hours you choose. One `.exe` runs the control
panel (no arguments) and the background monitor (`--monitor`), which Task Scheduler starts as
SYSTEM.

## Layout

- `src/` is the library, verified with Verus: blocks on a circular 24-hour day, the schedule
  and when it changes, the lock choices, the configuration with its validation and migration
  from version 2, Windows path reading and executable matching, the heads-up notification and
  the PowerShell command line that shows it, the scheduled task's definition, the monitor's
  decisions and log, the catalog of common apps, and the editing rules of the timeline, the
  control panel, the settings and the setup wizard.
- `app/` is the program around it: reading the clock and the environment, files, the registry,
  processes and sessions through Win32, `schtasks.exe`, the JSON settings file, and the egui
  window.
- `tests/` exercises the library on concrete values.
