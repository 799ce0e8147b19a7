# cc2_monitor

The logic of a monitoring service for Elegoo Centauri Carbon 2 printers,
written in Verus. The functions in `src/` carry contracts that Verus proves;
a few small wrappers around outside calls (`String::push`, `char::from_u32`,
`rand`'s thread-local generator and three uses of `reqwest::Url`) have
contracts that are trusted, not proved.

- `src/config.rs`: the stored configuration, printer profiles, access codes.
- `src/settings.rs`: settings updates and imports (profile lists are
  normalized, sorted by id and deduplicated).
- `src/destinations.rs`: notification destinations: normalizing, creating,
  updating, deleting.
- `src/notify.rs`: which printer events reach which destinations: toggles,
  progress intervals, cooldowns, held-back connection events.
- `src/commands.rs`, `src/telegram.rs`: the Telegram bot's commands and the
  contents of Bot API requests.
- `src/setup.rs`, `src/host_subnets.rs`: first-run setup, network scans and
  the subnets of the host.
- `src/printer_api.rs`, `src/camera.rs`, `src/debug.rs`: checks and derived
  values of the printer, camera and diagnostics API.
- `src/text.rs`, `src/keyed.rs`: text handling and small keyed tables.

`app/` is the HTTP service around the library (axum, reqwest, tokio); it
holds the I/O and the rules on floating point values.
