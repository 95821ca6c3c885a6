# tikv_ctl

A tool that examines the stores of a node of a replicated key-value store: raw values, ranges,
versions of keys, raft logs, states and sizes of regions, and the differences between two stores.

- `src/` holds what the tool computes, with contracts: the notations (`escape`, `hex`, `number`,
  `text`, `size`), the layouts of keys and records (`codec`, `keys`, `types`), the contents of a
  store (`store`), what is printed of it (`mvcc`, `range`, `raw`, `region`, `diff`), what a command
  line asks for (`command`), and how a server is set up, started and stopped (`server`). What holds
  of these together stands in the modules that end in `laws`, and beside the functions it is about.
- `tests/` runs the library.
- `app/` reads the stores on disk, decodes the messages in them, prints, and runs a server.
