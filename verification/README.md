# quest_scrcpy

A scrcpy client for the Meta Quest: it mirrors the headset in a window, with a live crop to one
eye, lens flattening, audio, screenshots and clips, and it has a few commands that need no window.

The library in `src/` holds the logic: the `adb` command line and what it prints, the wire
formats, the state of a session and of the window, the settings file, the picture arithmetic. It
is written in Verus, and every function states in its contract what it gives back. The laws that
span several functions stand beside them as public proof functions, under names that begin with
`law_`.

The program in `app/` runs processes, sockets, decoders, the audio device and the window, and asks
the library what to do next.

- `src/` the verified library
- `tests/` its tests
- `app/` the program

## Files beside the executable

- `assets/scrcpy-server.jar`, the scrcpy server 4.0, which is pushed to the device
- `assets/quest-flat-agent.jar`, the agent that composes the flat view
- `assets/NotoEmoji-Regular.ttf`, a font with the symbols that the buttons show
- `quest-scrcpy.cfg`, the settings, written by the program
- `captures/`, where screenshots and clips go

`adb` is taken from the search path, or from where the variable `ADB` says. `ffmpeg` is used
where it is found, on the search path or where `FFMPEG` says; without it, decoding, recording and
sound are left to Windows Media Foundation.
