# ticket

Support tickets for a Discord bot, as a verified library (`src/`) and the
Discord and database handlers around it (`app/`).

`src/` holds the decisions the handlers make (names, texts, checks,
layouts and parsing), each with a contract:

- `text`: the string operations the handlers need (decimal numerals,
  character prefixes, replacing, splitting, trimming, words, first lines,
  byte-offset slices, integer parsing), specified over `Seq<char>`.
- `naming`: thread names when a ticket is closed, fixed or reopened, with
  the laws that reopening undoes closing and fixing.
- `components`, `modal`, `message_command`, `ready`, `slash_commands`: the
  modal and command layouts, the FAQ parsing, mentions, embeds and the
  checks of each handler.
- `mention`, `error`, `support_guild_manager`: mentions and their text,
  error messages, and the stored guild settings.

`app/` talks to Discord (serenity) and the database (sqlx) and calls the
library for everything it decides.  `tests/` runs the library on concrete
inputs.
