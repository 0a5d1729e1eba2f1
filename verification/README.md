# whytop

A read-only terminal process monitor that explains a selected process with a local,
OpenAI-compatible model server (Rapid-MLX on macOS, llama-server elsewhere).

The decisions of the monitor are a verified library in `src/`:

- `sort_mode`: the sort modes and the keys that cycle through them.
- `process`, `table`, `refresh`: snapshots of processes, how a listing becomes snapshots, and
  how a refresh keeps running processes in place and appends new ones by identity.
- `row_order`: the order of rows in each mode, and sorting the table.
- `redaction`, `prompt`: the bounds put on evidence and the prompt that carries it.
- `ai`: server settings, model choice, and the decoder of the streamed answer.
- `ps`: reading the macOS `ps` output.
- `session`: selection, typing, the chat, model events and the refresh schedule.
- `display`, `text`: text measured and numbers written for the screen.

`app/` holds the program: the terminal, the process listing, HTTP and the model task.
