# runic

The verified core of an agent runtime: what it says to models, tools and servers, and what
it makes of what comes back. The library is written in Verus; every function states its
contract, and the contracts are proved.

- `src/` is the library.
  - `json`, `text`, `order`, `table`, `duration`: what the rest is built on.
  - `anthropic`, `gemini`, `openai`, `provider_core`, `message`: the streaming providers, as
    request payloads and states of their event streams.
  - `provider`: the provider contract, the filter for thinking tags and the Mistral driver.
  - `mcp`: a Model Context Protocol client, as messages, configuration, tools and the
    decisions of its transports.
  - `memory`: a bounded memory store with its threat scanner, tool and providers.
  - `plugins`: plugins and what they bring.
- `app/` holds what talks to a process, a socket or a disk.
- `tests/` holds the tests.

Reading and printing JSON is `serde_json`'s, matching patterns is `regex`'s, and headers
are `reqwest`'s. What the library takes for granted of them stands in the contracts of the
functions that call them.
