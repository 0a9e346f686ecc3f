# socrates

A lightweight persistence layer built on command/query separation and event
sourcing, with two example services (a document management system and a
phone book).

- `src/` is the verified library: events and errors, the registry of named
  commands and queries, the sink that hands events to commands and restores
  stored events, the naming of stored event files, the routing of HTTP
  requests, and the aggregates of the two services with their commands and
  the trees their queries answer with. The sink restores stored events by
  increasing id, whatever order the storage lists them in, and it is proved
  that this rebuilds the aggregate and the last id of the run that stored
  them, as long as every command of that run succeeded.
- `app/` holds what deals with the world: the HTTP server, the files of the
  storage, JSON, the locks that share the aggregate, and the programs.
- `tests/` exercises the library.
