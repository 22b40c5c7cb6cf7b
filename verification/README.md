# Rove

A chat server that relays a conversation to a language model and streams the
answer back, with a tool loop, an observer tap and a voice mode; and a terminal
client for it.

- `src/` is the library: every rule of the server and of the client, with
  contracts that Verus proves. It reads the clocks, and does no other I/O.
- `app/` is the program around it: HTTP, files, processes and the terminal.
- `tests/` holds the library's tests.

The modules of the library:

| module | what it holds |
|---|---|
| `text`, `json`, `clock` | characters, JSON values and clock readings |
| `sse` | the event-stream decoder, and the frames that the server sends |
| `messages`, `chat` | which requests are served, and what the model is asked |
| `turn` | one chat turn: responses, tool calls and their answers |
| `hedge` | when a slow request gets a twin, and which of the two is used |
| `command` | what a command's outcome tells the model |
| `feed`, `tap` | what observers see |
| `client` | what a typed line means, the history, and what is printed |
| `voice`, `speech` | uploads, transcripts, phrases and spoken answers |
| `voice_turn`, `speech_turn` | one voice turn, from the recording to the spoken answer |
| `sessions` | saved voice sessions: names, limits and pruning |

The public proof functions named `law_*` state what holds of the library as a
whole: that chunk boundaries do not matter to the decoder, that the client keeps
to the server's budget, that a turn takes no more than eight responses.
