# Observer

A Discord bot that tracks member joins, leaves, bans and kicks with rich
embeds and invite attribution.

The crate is split in two:

- `src/` is the `observer` library, verified with Verus: invite tracking and
  attribution, the recent-ban cache, departure classification from the audit
  log, the join and leave embeds, mention editing for departed users, notice
  eligibility and delivery, settings rows, member search queries, startup
  reconciliation, and the replies the slash commands send (all but the
  floating-point percentages).
- `app/` is the program around it: the serenity/poise client, the gateway
  event handlers, the SQLite queries and the commands, which hand Discord and
  database values to the library and send back what it builds.

Layout of `src/`:

- `text.rs` — decimal numbers, parsing, trimming, searching and replacing text.
- `invites.rs`, `state.rs` — the per-guild invite cache and recent bans.
- `permissions.rs` — which features a guild's permissions allow.
- `services/` — settings, notices, search, membership, mentions, messages,
  audit-log classification, statistics rows and the embeds.
- `events/` — decisions taken on gateway events, and the embeds built from
  recorded stays.
- `commands/` — history lines, chunking, and the `/stats`, `/member`,
  `/settings`, `/notice` and `/botstats` replies.
- `repos/` — database handles for settings and notices.
