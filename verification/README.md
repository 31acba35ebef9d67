# ai

A one-shot chat client for OpenAI-compatible language models: prompt in,
answer out. The library under `src/` holds the client's logic, verified with
Verus; `app/` is the command-line program around it (argument parsing, files,
the terminal, the API-key command and the HTTP exchange).

## Layout

- `src/text.rs` – characters of strings, Unicode whitespace, trimming,
  substring search.
- `src/thinking.rs` – thinking text in replies: the cut of a reply into
  ordinary and thinking parts, dimming (`color_thinking`), removal
  (`strip_thinking_text`), and the injection of a separate reasoning field.
- `src/thinking_laws.rs` – what holds of those functions for all replies.
- `src/config.rs` – the configuration and its validation.
- `src/openai.rs` – the endpoint URL, the messages sent, the options merged
  into the request, and what is made of the reply.
- `src/client.rs` – user input, API-key source, display settings, output,
  history recording, the status line.
- `src/history.rs` – keeping and replaying history entries.
- `src/cli.rs` – flags and the mode they select.
- `src/completions.rs` – shell completion scripts.
