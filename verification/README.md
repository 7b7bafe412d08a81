# ribbot

ribbot queries the merged pull requests, closed issues and open issues of the
repositories of the projects listed in `rib-config.toml` and prints a markdown summary
per project: totals with links to the matching GitHub searches, then the merged pull
requests, most discussed first.

The crate is a verified library with a thin program around it.

- `src/` is the library, verified with Verus:
  - `text`: whitespace trimming as `str::trim` does it, character vectors, decimal numbers;
  - `link`: reading the `Link` header of a response (`parse_next` and its helpers);
  - `api`: the decisions between requests (next page, rate limits, response status) and
    the reading of the rate-limit headers and of the listing URLs;
  - `dates`: instants and day numbers, with the calls into chrono;
  - `activity`: which pull requests and issues of a page fall in the reporting window;
  - `project`: projects, repository URLs, stub names;
  - `stats`: counting pull requests and issues per repository;
  - `pulls`: ordering pull requests by review comments;
  - `report`: the markdown summary.
- `app/main.rs` is the program: command line, configuration file, HTTP requests, JSON
  decoding, sleeping and printing.
- `tests/` runs the library on concrete values.

Usage:

```
ribbot pulls --begin 2022-09-01 --end 2022-10-01 [--oauth-token <token>] [--no-comments]
             [--only-project <name>] [--include-dependabot] [--smoke-test]
```

The configuration is read from `rib-config.toml` in the working directory.
