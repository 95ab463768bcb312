# douyin-cli

A command-line tool for Douyin: it crawls works, accounts, comments and
search results through the web API, calls the official open platform
(OAuth, comments, direct messages), serves both as MCP tools, and analyses
crawled data offline (hot words and demands, work statistics, subtitles).

The logic is a Verus library, `src/`, whose functions carry contracts that
Verus proves:

- `json`, `text`: the JSON document model and the character-level text
  operations everything else is stated in.
- `cookie`, `settings`, `auth`: cookie checks, the settings file's merge
  rules, and the OAuth flow's decisions (plans, callbacks, saved tokens,
  QR rendering).
- `target`, `pages`, `crawler`, `download`, `web`: crawl targets, list
  requests, paging, the records kept of works and users, file names and
  download entries, and the checks on web API responses.
- `comments`: comment paging, normalized comments and chat records.
- `openapi`, `api`: requests to the open platform, checked before they are
  sent, and the `api` subcommands as plans of requests.
- `mcp`, `obscura`: the MCP server's answers and tools, and the agent
  manifest.
- `insights`, `stats`, `subtitles`: the offline analyses and their reports.
- `properties`, `tally_laws`: laws that span functions, as proof functions.

`app/` is the program around the library: argument parsing, files, the
network, media decoding and speech recognition. `tests/` runs the library
on concrete inputs.
