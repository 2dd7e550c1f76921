# Chargebot

A Telegram bot that watches EV charger stations of the FLO network and tells subscribed chats
when chargers become available.

## Layout

- `src/` is the verified library. Every function states its behaviour in `requires` / `ensures`
  and Verus proves it:
  - `config`: the configuration types, their defaults and their checks, which report every
    refused field with its path;
  - `datasource`: lookups over the configured locations and chats, built once after checking
    that IDs are unique and that chats only name configured locations;
  - `bot`: the state machine that turns Telegram updates and station updates into payloads and
    watch commands, with laws about subscriptions and notifications;
  - `flo`: the park watch manager's decisions and the station status differ;
  - `telegram`: API models, endpoint addresses, the polling offset and the webhook's answers;
  - `utils`: API errors, retry decisions and metric labels;
  - `logging`, `whatever`, `keyed`, `text`: backtrace reading, error texts, a text-keyed map and
    small text helpers.
- `app/` is the program around the library: configuration loading, HTTP clients, the webhook and
  metrics servers, and the async tasks that feed events to the library and carry out what it
  decides.
- `tests/` exercises the library on concrete values.
