# guild_core

The core of the guild tools for apprentices: the configuration and data files
under `~/.guild/` (project registry, curriculum progress, review history), the
crosslink knowledge search, and the portfolio site generator.

- `src/` is the library, verified with Verus:
  - `text.rs`: trimming, lowercase keys, splitting and joining of characters;
  - `config.rs`: the configuration types and the `~/.guild/` paths;
  - `data.rs`: the project registry, progress and review history, with their
    rules (trimmed, case-insensitive names; no duplicates) and the laws they keep;
  - `crosslink.rs`: titles, snippets and relevance scores of search results;
  - `portfolio.rs`: slugs, HTML escaping, labels, `~` expansion and the first
    paragraph of a README;
  - `site.rs`: the HTML of the project pages, cards and index.
- `app/` is the `guild-portfolio` program and the file, environment, process and
  TOML/JSON handling around the library.
- `tests/` holds the tests.
