# towny_bot

A Minecraft bot for a Towny server, and the HTTP API that controls it.

`src/` is the verified library (Verus). It holds what the bot decides:

- `text`: character-level trimming, searching, splitting and substitution,
  each stated over `Seq<char>`;
- `names`: a set of player names;
- `bot/events/chat`: reading rank lists (`Title [count]: a, b, c`), reducing
  listed names to residents, direct messages, and the reaction to a chat line;
- `events/chat`: a lenient reading of the same chat lines, which skips
  what it cannot reduce instead of failing;
- `bot/handle_event`: the reaction to each game event, leaving on request once;
- `bot/bot_controller`: the state shared between the controller and the bot;
- `api`: session claims, the login check, the bearer token of a request, the
  bot's HTTP commands;
- `app_config`: the settings, later sources overriding earlier ones;
- `mojang`: reading the answer to a skin upload.

`app/` is the program around it: settings files and environment, logging,
the HTTP server, the bot's thread and its game connection.
