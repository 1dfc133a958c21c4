# tonos_cli

Node-link plugins of the TON OS command line tool, with their logic verified
by Verus.

- `src/plugins.rs` – the plugin interfaces (`NodeLink`, `NodeLinkClient`) and the
  choices made while plugins are found: library extension, configuration path,
  link lookup by name.
- `src/front.rs` – the `front` link: configuration defaults, server endpoints,
  known networks and network-name resolution, SDK client settings, log level,
  and the batching of account queries.
- `src/direct.rs` – the `direct` link: the account report and the handling of
  control-interface replies.
- `src/text.rs` – string operations (trim, replace, contains, case folding,
  number notation) specified over character sequences.
- `src/lib.rs` – `run_query_accounts` over any node-link client.
- `app/` – loading plugin libraries, reading configuration files, logging.

The SDK and node crates that the plugins talk to (`ton_client`, `ton_api`,
`ton_block`, `ton_types`, the TON Labs `adnl`, `ever_dc_keeper`) are not
available from the registry, so `app/` holds no code that calls them: the
plugin entry points (`get_node_link`), the SDK client, the control client and
the decoding of account states are absent. Their decisions are verified in
`src/` (`client_settings`, `plan_account_batches`, `record_batch_reply`,
`control_result`, `account_reply`, `record_account_reply`).
