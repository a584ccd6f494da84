# live_stream

Translates the event stream of an upstream response, event by event, into the
server-sent events of one downstream message: text, thinking, tool calls and web
searches become content blocks, and what a later request needs to continue the
response is collected on the way.

`model` says what the translator does, as a function from state and event to
state and downstream events. `translator` is the executable translator, and each
of its functions is proved to do just that.

What follows for a whole stream is proved of the model:

- `protocol`: a client can rely on the order of the events
- `accounting`: over a whole response each block is opened and closed
- `consistency`: what holds of every state that a translator comes to
- `progress`, `content`: what an event can change, and when there is content
- `heading`: only the start of the message shows what the message is started with
- `kinds`, `laws`: the kinds of events, what is passed on and what is collected

The other modules are the parts: JSON values and their text, upstream events,
downstream events and their frames, the arguments of the `Read` tool, reasoning
items, and the capture of what was sent.

Two things are trusted: that `serde_json` reads and writes JSON text as a
function of its input (`json_text`), and what `str::trim_end` removes (`text`).

`app` hands the translator events that are `serde_json` values.
