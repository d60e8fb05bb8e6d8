# usbguard-gui

An unprivileged desktop client for the USBGuard daemon, written in Verus.

## Layout

- `src/` — the verified library.
  - `rules/` — the USBGuard rule language: lexer, grammar, parser and
    renderer, with the proofs that rendering and parsing are inverse
    (`roundtrip.rs`), that reading is stable (`stability.rs`), and that a
    device name can never become rule syntax.
  - `model/` — ids, rules, devices, targets, parameters and errors, each with
    its mathematical view.
  - `device_store.rs` — the device table: snapshots, coalesced batches and
    the presentation order.
  - `dbus/` — the decisions around the D-Bus interface: signal coalescing,
    error classification, access diagnostics, safe rule removal, reconnection
    backoff, and the event worker's steps.
  - `window.rs`, `announce.rs`, `rule_form.rs`, `policy_page.rs`,
    `presentation.rs`, `i18n.rs` — the window's state machine and the texts
    and choices it shows, apart from any toolkit.
  - `cli.rs`, `remedy.rs` — the headless commands' output and the remedies
    the diagnostics propose.
- `tests/` — tests of the library on concrete values.
- `app/` — the program: argument handling, the D-Bus connection (zbus and
  tokio), the worker and supervisor loops, and printing. It holds no rule of
  its own; every decision is a call into the library.
