# funcode

A coding assistant in the terminal. It talks to a language model, lets the model read, edit and
write files, and shows what happens.

`src/` is the library. It holds the rules of the program and is verified with Verus:

| module | what it holds |
| --- | --- |
| `session`, `item` | the conversation, its budget, and how it is written out for a request |
| `agent` | a turn, step by step: request, answer, tool calls, results |
| `stream`, `openai`, `model` | the wire format, and how a streamed answer is put together |
| `tools`, `json` | the registry of tools, the file tools, and the schemas of what tools take |
| `toolkit`, `bash`, `write` | tools that ask for permission before they run commands or write files |
| `chat`, `provider` | a chat session with a completion service, and the requests that it sends |
| `tui` | the state of the terminal interface, key by key and event by event |
| `text`, `views` | texts as sequences of characters, and what lists of values say |
| `app`, `bus`, `config`, `event`, `fs` | the rest: errors, settings, events, what the disk reports |

The library decides and the program acts. Where something has to be waited for, a function of the
library says what to do next, and takes in what came of it. What holds over whole turns, streams
and sessions is stated in the `law_...` functions at the end of each module.

`app/` is the program around the library: the terminal, the network, the disk and the tasks in
between. `tests/` runs the library.
