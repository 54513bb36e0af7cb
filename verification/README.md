# term_chat

A terminal chat display for the cockatiel engine. Messages from several platforms arrive over a
WebSocket, pass an optional rate limiter, and are drawn in the terminal with coloured names, emoji
and images as ascii art. The operator can scroll, log in with Twitch, Kick or YouTube, send messages
and moderate.

- `src/` is the library. It decides: which messages are shown and for how long, what a frame looks
  like character by character, what a key does in each mode, which images are embedded and what they
  look like, what is said to the engine and to the platforms and what their answers mean. Its
  functions have contracts that Verus proves, but for the small ones that make a call into another
  crate or into std and are taken at their word (below). The laws that span several functions stand
  beside them as public proof functions.
- `tests/` runs the library, in part against std's formatting and floating point.
- `app/` is the program around it: sockets, files, clocks, audio output and the terminal.

The library computes on plain values. Times are nanoseconds since a fixed origin (`time`), maps are
lists of entries with a definite order (`tokens`), JSON documents are trees (`json`), and single
precision arithmetic is done exactly on integers (`single`).

What is taken on trust stands next to its use, each with a word on what is claimed: `serde_json` in
`json` and `tokens`, `regex` in `pattern`, `image` in `images`, `sha2` and `base64` in `pkce`, `uuid`
in `message`, and `String::push` and `String::pop` in `text`. Of the system clock in `pkce` nothing
is claimed.
