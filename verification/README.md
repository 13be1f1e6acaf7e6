# Sirucord

Announces Discord streams and calls on Mastodon. One run checks once: it reads who is in the
watched voice channels, publishes what is new, and remembers it, encrypted, in a file or on a
branch of a GitHub repository.

## Layout

- `src/` is the library: the rules, formats and decisions, with contracts that Verus proves.
  It does no I/O. Where something has to be done outside, a function returns what to do and
  is called again with what came of it, be it a failure. What other crates compute (digests,
  encryption, URLs, HTML, links, images) is called from small functions whose contracts are
  trusted; each says so in its doc comment.
- `tests/` runs the library on concrete values, with the outside crates linked.
- `app/` is the program: arguments, files, requests, the gateway connection, and the drawing
  of cards, which needs floating point and a font at
  `assets/fonts/NotoSansJP-Regular.otf`.

## Modules

| Module | What it holds |
|---|---|
| `config` | The configuration and its rules |
| `discord`, `gateway`, `activity`, `avatars` | What Discord tells, and what of it may be announced |
| `engine` | The state, and the delivery of one announcement |
| `survey` | What a run reads before it changes anything |
| `visit`, `targets` | One target step by step, and which targets there are |
| `sharing`, `link_titles` | Passing on the last message of a channel, with titles for its links |
| `mastodon`, `portraits`, `card` | Posts, images, and the picture of a call |
| `store`, `codec` | Encryption, and where the state is kept |
| `json`, `notation`, `http`, `url`, `text`, `number`, `table`, `time`, `digest`, `keys` | What the others are built on |

## Promises

Each public proof function whose name begins with `law_` states a promise of the whole in its
doc comment. Among them: nothing is published before the intent to publish it is saved, and a
save that failed stops the run; nothing is saved or posted before everything was read; a dry
run changes nothing; a session is announced once; a shared channel's cursor never moves back;
a post leads into no Discord channel; an incomplete answer never ends a stream; time that
passes makes no news.

## Use

```sh
sirucord check
sirucord run --dry-run
sirucord run
sirucord pending
sirucord resolve --target GUILD:USER --posted
```

The secrets are read from the environment: `DISCORD_BOT_TOKEN`, `MASTODON_ACCESS_TOKEN`,
`SIRUCORD_STATE_KEY`, and `SIRUCORD_CONFIG` in place of a configuration file.
