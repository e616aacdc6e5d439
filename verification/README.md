# localcoder

The logic of a coding assistant that talks to language models, written and proved in
Verus: settings and their migration, the requests to Ollama, LM Studio and OpenAI, the
reading of streamed answers, the tools that work on files, and the language servers of a
workspace.

- `src/` is the library. It touches no file, no network and no environment: what comes
  from there is an argument, and what goes there is a result. JSON text is read and
  written by `serde_json`, file patterns are matched by `glob`, and URLs are read by
  `reqwest`; what is relied on there is stated where the calls stand.
- `tests/` runs the library.
- `app/` puts it to work with files, requests and processes.

Paths are text with `/` as their separator.
