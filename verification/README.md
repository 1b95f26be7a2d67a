# lan_mouse

Two machines share one keyboard, one mouse and one clipboard over the local network. `src/` is the
verified core of that: a library whose functions state in `requires` and `ensures` what they do,
and whose promises as a whole are proof functions named `law_...`.

- `proto`: events and their wire format, authenticated datagrams, replay windows
- `capture`: moving over to a neighbour at a screen edge, and what the input hooks do about it
- `emulation`: received events as writes to an evdev device
- `server`: what is accepted from the network, pings, barriers and sessions
- `clipsync`: text on the clipboard at once, files on demand
- `mac`, `utf8`, `text`, `bytes`: the calls into `hmac`, `sha2` and the standard library that are taken on
  trust, each with a comment that says what is trusted

`app/` is ordinary Rust around the library: the clipboard daemon, the tasks of the server, the
emulated device, and the COM objects and hooks of Windows. `tests/` runs the library.
