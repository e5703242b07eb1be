# bypass_hub

The core of a web panel that manages selective-VPN routing: route lists
(domains and IP networks) distributed to 3x-ui servers as xray geosite/geoip
files and to MikroTik routers as RouterOS scripts, WireGuard peer address
allocation, and the admin API's decisions.

- `src/` is the library, verified with Verus: the protobuf encoding of the
  geo files (`protobuf`, `geo`), the RouterOS scripts (`script`), WireGuard
  keys and peer address allocation in the existing peers' /24 network,
  10.0.0.0/24 by default (`wireguard`), grouping of routes
  (`grouping`), admin sessions (`session`), request checks and 3x-ui URLs
  (`requests`), the steps of pushing a router's peer to 3x-ui
  (`onboarding`) and of building its init script (`script_build`), and
  the records they work on (`models`).
- `app/` is the HTTP server around it (axum, SQLite through sqlx, reqwest
  towards 3x-ui). At run time it reads the router init template from
  `templates/init.rsc.j2` and applies the SQL migrations in `migrations/`
  of its working directory; both belong to the deployment and are not part
  of this crate.
- `tests/` runs the library on concrete values.
