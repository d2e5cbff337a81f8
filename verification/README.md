# pwm2_rust

A password manager whose data format, cipher, protocols and editor logic are
verified with Verus.

Each entry is stored in its own file: the file's name is the entry's name
encrypted with the user's hash, and the file holds every version of the entry
(oldest first), each encrypted with its own password.

## Layout

- `src/` — the verified library
  - `block.rs`: 64-byte blocks, SHA-512 keys, hexadecimal
  - `smsg.rs`: messages of blocks, the cipher, and their text forms
  - `bytes.rs`: conversion of values to and from bytes
  - `user_info.rs`: users and their hashes
  - `timestamp.rs`: points in time
  - `entry.rs`, `entry_file.rs`: entries, entry files and their text forms
  - `connect.rs`, `connect/sync.rs`: the sync messages and the host and
    client state machines
  - `data_structures.rs`, `data_structures/client_data.rs`,
    `data_structures/server.rs`, `data_structures/storage_client.rs`: the
    storage server's messages, the client's messages, and the server and
    client state machines
  - `edit.rs`: the line editor's state machine
  - `random.rs`: random and memorable passwords
  - `text.rs`: string operations and their specifications
- `app/` — the terminal program: `pwm2` runs the password manager,
  `pwm2 serve` runs the storage server, `pwm2 client` its client
- `tests/` — tests of the library
