# bridgething

The decision logic of the bridgething daemon and its companion library,
written in Verus and proved against its contracts.

- `src/` is the verified library. Each module takes plain values and gives
  plain values back: peer ownership and waiting requests (`peers`), the webapp
  registry and its bundle checks (`webapps`, `bundles`, `names`, `pathname`),
  the answers to a gateway peer's webapp requests (`webapp_handler`,
  `gateway_msgs`), the kiosk browser's state (`chrome`), the backlight policy
  (`als`), display rotation (`rotation`), key gestures (`input`), HTTP routing
  decisions (`net`), screenshot housekeeping (`screenshot`) and the companion
  session's records (`companion`, `keyed`). Public proof functions named
  `law_*` state properties that span several calls.
  Bundle hashing (`bundle_hash`) and the stable sorts it and the debug
  lists use (`sorting`) are here too.
- `tests/` runs the library on concrete values.
- `app/` is the unverified edge: sysfs, preference files, bundle archives,
  the environment, and the floating-point brightness curve.

## Tables

Which transport owns an address is a `HashMap` keyed by the address's 48-bit
number, through the specifications vstd gives `HashMap`.

The other small keyed tables are vectors with a uniqueness invariant:

- The requests waiting for a reply are keyed by their id, but a disconnect
  fails the requests it strands and hands them back, and the contract states
  in which order: the order they arrived in. Walking a `HashMap` goes in an
  order that a per-process seed decides, so no contract could state it.
- Device tokens, links and provider sign-ins are keyed by `String`. With such
  a key vstd's `HashMap` specifications promise nothing of the map's
  contents, so a map keyed that way could carry no contract at all.
