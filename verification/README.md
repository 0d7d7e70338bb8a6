# sensor_api

Verified core of a service that collects soil-moisture and flowmeter readings
from field sensors, stores them in TimescaleDB, looks sensors up on a Solana
program, and builds firmware for sensor boards.

- `src/` is the library, verified with Verus:
  - `time` — UTC instants, hour truncation, whole seconds between instants;
  - `aggregation` — splitting flowmeter readings at hour boundaries and
    planning the hourly irrigation report;
  - `types` — sensor records and their on-chain byte layout, with its decoder
    and encoder;
  - `blockchain`, `program_utils` — the RPC filters that select sensor
    accounts, and the decoding and selection of the accounts returned;
  - `firmware` — the decisions of the firmware build endpoint;
  - `readings` — dating flowmeter readings and the replies of the sensor
    endpoints;
  - `database` — the database connection string.
- `app/` is the HTTP server around it: routing, database queries, RPC calls,
  running the firmware build, and the floating-point sums of the report.
- `tests/` exercises the library on concrete values.
