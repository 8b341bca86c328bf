# beanwm

A tiling Wayland compositor whose decisions are verified with [Verus](https://github.com/verus-lang/verus).

`src/` is the verified core. It never touches a device or a client: it is told what has happened
as plain values and answers what is to be done.

- `geometry`: points, sizes, rectangles, and the screen that an output shows
- `layout`: the dwindle layout, and the proof that its tiles share the screen out exactly
- `direction`: the tile next to another one in a direction
- `app`: the open windows, their tiling order and the keyboard focus
- `state`: how pointer, keyboard, session and frame events change the compositor
- `input`: shortcuts, keymap and keyboard lights; `keys` holds the key symbols of `xkeysym`
- `terminal`: which terminal emulator is launched
- `drm`: which connector the screen is shown on
- `udev`: devices that come and go
- `event_loop`: which failures of the event loop are reported

`app/` is the program around it: smithay, DRM/KMS, libinput, libseat and udev. It needs the system
libraries of these.

## Shortcuts

| Keys | What they do |
| --- | --- |
| Super+Enter | launch a terminal |
| Super+Q, Super+W | close the focused window |
| Super+Shift+arrow | exchange the focused tile with the one in that direction |
| Ctrl+Alt+F1 to F12, Ctrl+Super+1 to 9 | switch to that virtual terminal |
| Ctrl+Alt+Backspace | exit |

Run it from a virtual terminal of its own.
