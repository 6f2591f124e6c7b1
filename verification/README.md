# autocommit

Proposes Conventional Commit messages for the staged changes of a Git
repository, with OpenAI or Gemini, and commits the one the user picks.

The library under `src/` holds the logic with its contracts, proved with
Verus:

- `git`: parsing `git status --porcelain=v2 -z`, summarizing the staged diff
  into a bounded, balanced patch while it streams in
  (`git::diff::DiffSummarizer`, or `summarize_diff` for bytes at hand), and
  the prompt sent to the model.
- `classifier`: the commit type suggested by the changed paths.
- `ai`: the generation plan and cache key, the candidate rules
  (`ai::candidates`), the retry policy (`ai::client`), the answer texts of
  each provider, and the JSON schema of a structured answer.
- `session`: going through the candidates; a new request is made only after
  every candidate was shown.
- `config`, `cli`: settings, environment overrides, and the command line.
- `text`, `digest`: the character and byte model the rest is stated over.

`app/` is the program around it: argument parsing, files, processes, HTTP,
and the terminal.
