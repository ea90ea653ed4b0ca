# drcom

A Dr.COM campus-network authentication client whose protocol logic is
verified with Verus.

- `src/` is the verified library: configuration parsing (`config`), packet
  construction (`protocol`), the client's protocol decisions as a state
  machine (`session`), the obfuscation of the saved WebUI form (`store`),
  adapter selection (`netif`), the WebUI's routing and form checks (`webui`),
  helpers of the C interface (`cabi`) and of the command line (`cli`), and the
  text and byte functions they share (`text`, `bytes`). Calls into `md-5`,
  `rand` and `network-interface` go through small trusted wrappers whose
  contracts are stated beside them.
- `app/` holds what touches the outside world: the UDP client that performs
  the session's actions, TOML and JSON files, the HTTP server of the WebUI,
  the C ABI, and the tray program.
- `tests/` runs the library on concrete values, including whole login and keep-alive
  packets, byte for byte.
