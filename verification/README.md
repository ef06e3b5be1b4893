# tsclientlib

Reading and writing TeamSpeak commands, the stream messages that travel in
them and the `initserver` message that opens a connection, with every function
verified by Verus against its contract.

- `escape`: the escaping of values (`\s` for a space, `\p` for a pipe, ...),
  with the law that resolving the escapes of an escaped value gives the value.
- `commands`: splitting a command into its name and its arguments and parts,
  and the text that writing arguments produces, with the law that a written
  command reads back as the arguments that were written.
- `numbers`, `ids`: decimal numbers as the standard library reads them, the
  text of floating-point numbers by the grammar the standard library accepts,
  and icon ids, whose negative and over-wide forms fold onto 32 bits.
- `fields`, `message`: reading the parts of a message by the fields that it
  declares (unknown arguments passed over, the last of a repeated argument
  winning, later parts taking what they lack from the first), and writing them;
  `lemma_part_values` states what each slot of each part holds.
- `messages::s2c`, `messages::c2s`: the messages in each direction; the client
  messages read back as exactly what was written. In `initserver`, a
  floating-point value is kept as its text once it reads as a number, the list
  of server addresses is kept as its text, and the server's unique id is read
  from base64 (`uid`).
- `packets`: packet headers and the packet that carries an outgoing command.
