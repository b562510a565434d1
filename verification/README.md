# ThinkPoint

A terminal interface for pointer settings on Linux: X button maps, libinput
properties, whether a device is on at all, and the TrackPoint/psmouse knobs
the kernel exposes under `/sys`. Values are staged first and applied with
`a`; nothing reaches the system until asked.

The library in `src/` is verified with Verus. It holds everything that
decides or parses:

- `xinput` — parsing `xinput list`, `list-props` and `get-button-map`
  output, the argument lists for each `xinput` call and the commands shown
  to the user;
- `sysfs` — the known attributes, building a node from what its files hold,
  staging (nudge, toggle, clamp), and the shell lines and `sudo` arguments
  for root writes;
- `detect` — the line parsers for the button-source detector and the drift
  meter;
- `app` — the state of the interface and every operation on it, with the
  laws they keep;
- `keys` — what each key does, as a step from state and key to the next
  state and the work left for the caller;
- `screen` — the text the interface shows for a device;
- `restore` — the `xinput` calls a list of saved X settings asks for on
  the devices connected now (this program does not read or write a
  profile file, so nothing in it calls this yet);
- `error`, `num`, `text` — the error type, number parsing and printing, and
  string handling, each stated against the standard library's documented
  behaviour.

`app/` is the program around it: running `xinput` and `sudo`, reading
`/sys`, the watcher threads, and drawing with ratatui.

## What this version leaves out

The sources this version was written from are incomplete, so these features
of ThinkPoint are absent:

- Saving: the udev rule for sysfs values and the X profile (the `s`
  screen), and `--restore`, `--print-rule` and `--print-profile`. The module
  that renders, reads and writes those files is not among the sources, so
  the key and the arguments say that saving is not part of this build.
- The middle-button chooser (`b`) and the about screen (`i`): the state
  they draw is not among the sources.
- Reattaching a detached (floating) device with `t`: floating devices are
  not modelled, and `t` only turns a listed device off or on.
