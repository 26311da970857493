# control_center

Back end of a Windows desktop launcher: it switches the default audio
output, sends media keys, mutes browsers, lists and launches the Steam
library and hand-added programs, and keeps custom icons for them.

- `src/` is the verified library (Verus): the Steam manifest parser, the
  path, AppID and icon checks, Windows path names, the saved-list
  operations (adding, removing, launching), the saved icon map, icon
  encoding, audio-device naming and the reading of the
  default-endpoint switch.
- `app/` is the program around it: COM, PowerShell, the registry, the file
  system and launching, with each front-end command as a subcommand whose
  result is printed as JSON.
- `tests/` runs the library on concrete inputs.
