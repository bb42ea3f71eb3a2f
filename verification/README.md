# coyote

A small crawler for reddit links, with its core logic verified by Verus.

- `src/` is the verified library: the decimal text of link ids and its
  parse (`decimal`), the split of the subreddit input line (`words`), the
  listing URL and the rows a listing adds to the database (`reddit`), which
  links are requested, where pages are saved and what is recorded of a
  timed-out request (`crawl`), the command-line sub-commands (`command`),
  the dashboard counter (`counter`) and 4x4 transposition (`matrix`).
- `app/` is the program around it: HTTP requests, the SQLite database,
  files, the terminal, the yew dashboard and the `f32` matrix benchmark.
- `tests/` runs the library on concrete values.
