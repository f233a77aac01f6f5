# odjk_blue

A small Bluetooth manager for runit systems (Void Linux) that drives
`bluetoothctl` through `sudo`, with its decisions verified by Verus.

- `src/` is the verified library:
  - `text`: character-level string operations (trim, words, lines, search,
    ASCII case) with their meaning stated over `Seq<char>`;
  - `ansi`: removing terminal escape sequences from command output;
  - `mac`: recognising addresses in `bluetoothctl` output;
  - `scan`: reading devices out of a scan, naming them, ordering them;
  - `known`: the connected and paired addresses the system reports;
  - `service`: bluetoothd's state and the commands that change it;
  - `pairing`: a pairing/connecting session as a state machine;
  - `state`: the device list and remembered pairings, and how actions change them;
  - `persist`: the remembered pairings as a JSON file;
  - `ui`: the decisions behind the window.
- `app/` is the program: the window, processes, files and threads.
- `tests/` runs the library on concrete inputs.
