# riftbound_events

The rules of a chat bot that follows Riftbound tournaments, verified with Verus, and the bot
around them.

`src/` is the library:

- `text`: numbers in decimal, numbers as users write them, lines;
- `urls`: the addresses of the tournament service;
- `model`: what the service tells about events, rounds, matches and players;
- `pagination`: lists that come page by page;
- `cache`: replies that are kept for a while;
- `table`: tables as plain text;
- `link`: links to events, as users paste them;
- `channels`: the event that each channel follows;
- `standings`, `journey`: the two commands that answer with a table.

`app/` is the bot: it talks to the chat, to the service and to the disk, and hands what it gets
to the library.  `tests/` runs the library on concrete values.
