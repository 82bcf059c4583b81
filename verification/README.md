# keyforge

The verified core of an input-remapping daemon for Android controllers: it
grabs a physical evdev device, runs every stick, trigger and button event
through a chain of Lua plugins, and writes the result to a uinput virtual
controller.

`src/` is the library, verified with Verus:

- `text` – trimming, splitting and case mapping of character sequences.
- `settings` – a string-to-string map with distinct names.
- `config` – the `key=value` daemon configuration.
- `evdev` – event codes, ioctl request numbers, the kernel records, and the
  setup of the virtual controller.
- `pipeline` – events, plugin emits, folding emits into the event in flight,
  and the ordered plugin pipeline.
- `plugin` – plugin metadata and settings, the tables handed to Lua.
- `device` – the physical device record and the procedure that hides its
  node and restores it.
- `daemon` – the decisions of the event loop.

`app/` is the daemon itself: system calls, file access, the Lua plugin
runtime and the event loop, all of which defer their decisions to the library.
`tests/` exercises the library on concrete values.
