# pom_plugin_base

The POM base plugin: a host boundary (C ABI v1) that answers JSON queries,
holds the shared workspace root the host hands over, lists the projects
under it, serves that list on an authenticated loopback endpoint, and hands
out its embedded UI assets in Base64.

- `src/` is the verified library (Verus): request routing of the endpoint
  (`http`), query dispatch (`query`), the workspace root and its snapshot
  (`workspace`), UI assets and the manifest check (`assets`), Base64
  (`base64`), the numerals of replies and tokens (`numerals`), the decisions
  of the C boundary (`ffi`), JSON member reading (`json`) and text
  primitives (`text`).
- `app/` is the plugin as the host loads it: the `repr(C)` types and entry
  point, the plugin state, the TCP endpoint, directory listing and JSON
  serialisation of replies.
- `tests/` runs the library on concrete inputs.
