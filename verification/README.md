# bitcraft_game

The trading rules of a game server, verified with Verus.

- `src/market.rs`: matching a buy or sell request against a claim's market
  listings (best price first, oldest first at equal price), with the
  listings' well-formedness and the exact trades made.
- `src/orders.rs`: checking and planning a buy or sell request: the trades,
  the coins withdrawn and refunded, and the listing left for the rest.
- `src/market_laws.rs`: coins and goods are conserved, players trade within
  their price limits, listings are never overfilled and buy listings stay
  funded.
- `src/barter.rs`, `src/barter_accept.rs`: accepting a barter stall's trade
  order: the checks, what changes hands, and the steps on the stall's own
  inventories and its claim's treasury.
- `src/barter_laws.rs`: trades hand out exactly the scaled quantities,
  coins owed by a stall are covered in full, stock is never oversold.
- `src/stall_events.rs`: the net change of a stall's inventories reported
  with each sale.
- `src/events.rs`: the event rows the server publishes.
- `src/items.rs`: item stacks.

The library decides; the server reads its tables, hands the library plain
values, and performs the writes the library lists, in order. Timestamps are
microseconds since the Unix epoch.
