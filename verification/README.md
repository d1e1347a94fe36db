# midden

The decisions behind a small file and paste host, written and verified in Verus.

`src/` is the library. Every function in it states what it returns, and the verifier proves it:

- `processing` strips metadata from images, sniffs types and makes thumbnails.
- `rate_limit` counts requests per action and caller.
- `web` decides what a request may see and what it is answered with: `support` for origins, links,
  callers and forms, `browse` for the public listing, `files` and `pastes` for the items.
- `jobs` decides when the background jobs run and what they do.
- `links`, `signing`, `http`, `ip`, `number` and `text` are what these are built from, `config`,
  `model`, `policy` and `error` what they speak of.

Calls into other crates stand behind small functions with a stated contract; what such a call returns
is named where it takes too long to state.

`app/` is the server around the library: routes, storage, templates and the loop of the jobs. It
brings values to the library and carries out what the library decides.

`tests/` runs the library on concrete values.
