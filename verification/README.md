# romhack

Tooling for retro ROM hacking in per-platform containers: a host-side MCP
server (`onmyoji`) that starts podman sessions, and an agent (`gami`) that runs
inside each container and answers typed JSON requests by running a fixed set
of toolchain commands.

- `src/` is the verified library: the wire protocol and its responses, the
  argv of every command the agent may run, request dispatch and the steps
  that carry a request to its answer, the `WriteInstruction` and
  image-build state machines, hex and number codecs, nm / objdump / make
  output parsers, text chunking for the RAG store, the platform table and
  podman argv builders, the session store, and CRC-32.
- `tests/` exercises the library on concrete values.
- `app/` holds what runs processes, touches files, databases and the network:
  the binaries' `main`, the process runner, SQLite and Qdrant stores, and the
  MCP tool surface. It hands the library plain values and acts on what comes
  back.
