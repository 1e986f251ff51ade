# flowstation

The verified core of a software-defined TETRA base station's control plane: the
configuration editors behind its web dashboard, the Cell × Brew profile logic, the LST
dispatch console's call state machine and session, the software watchdog, PDU field
codecs, transport framing, and the update check.

Everything under `src/` is verified with Verus: each public function states in its
contract what it returns or changes, and the properties that span several calls are
stated and proved as public proof functions (`lemma_*`).

## Layout

- `src/` — the library.
  - Text and configuration: `text`, `toml_lines`, `ota_channel`, `dual_carrier`,
    `dashboard_ports`, `dashboard_auth`, `sds_commands`, `core_info`, the `sec_*`
    configuration sections, `soapy_driver`.
  - Dashboard services: `json` (a plain model of parsed JSON), `profiles`, `setup`,
    `rf_status`, `host_network`, `update_check`, `dashboard_tls`.
  - LST dispatch: `lst_dispatch` (call state machine and entity), `lst_session`
    (operator lock), `lst_shared` (state shared with the dashboard), `lst_media`
    (traffic block packing).
  - Stack plumbing: `message_queue`, `bits`, `group_deassignment`, `granting_delay`,
    `framing`, `transport`, `health`, `telemetry`.
- `app/` — the host side, not verified: file and process I/O, HTTP requests, TLS and
  QUIC sockets, threads, and the floating-point RF helpers. It reads and writes, and
  hands plain values to the library for every decision.
- `tests/` — tests run against the compiled library.

Calls into outside crates made by the library (`uuid`, `md5`, a few `std` functions) go
through small trusted wrappers whose contracts are documented where they are declared.
