# edge_lb

A verified library for an L4 edge load balancer made of gateways and
backends joined by a VXLAN overlay. Every function under `src/` carries a
Verus contract and is proved against it; `app/` is a small command-line
program around the library that does the file, process and host I/O.

## Layout

- `src/` — the library, one module per concern:
  - configuration: `config`, `file_config` (role sections), `listener_config`,
    `group_views`, `native_model`, `overlay`, `overlay_laws`,
    `overlay_conflicts`, `ipnet`, `ipv6`;
  - the native datapath: `datapath`, `flow`, `flow_table`, `native_dnat`,
    `native_store`, `native_state`, `state_change`, `store_laws`, `health`,
    `probe_schedule`, `scheduler`;
  - the control plane: `control` (backend subscription), `gateway_watch`,
    `registry`, `snapshot`, `snapshot_file`, `discovery`, `auth`, `pb`;
  - HA: `ha`, `ha_write`, `native_ha`, `pairing`, `pair_service`,
    `peer_merge`, `flow_sync`, `xsync`, `automation_sync`;
  - host plumbing decided in the library and carried out by the caller:
    `netlink`, `route_msg`, `route`, `policy_routing`, `nft`, `return_path`,
    `sysctl`, `gateway_nodes`;
  - the HTTP API surface: `router`, `dispatch`, `api_common`;
  - notifications and automation: `events`, `notify`, `notify_store`,
    `signer`, `automation`, `logging`, `text`.
- `tests/` — tests of the library.
- `app/` — the `edge-lb` command line.

Calls into outside crates (regex, serde_json, url, hmac, sha2, base64,
urlencoding) go through small wrappers whose contracts are trusted; their
doc comments say what each contract claims.
