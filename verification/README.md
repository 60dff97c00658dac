# marcopolo

A command-line file hunter and downloader (GitHub repositories, web sites,
sitemaps) with a free-book search engine (Internet Archive, Open Library,
Project Gutenberg, Anna's Archive).

- `src/` is the library, written in Verus: every decision the tool takes
  (which files a repository tree, README, release list, sitemap or web page
  offers; which pages a breadth-first crawl fetches next; what each book
  source's answer yields and how the answers are merged; how a download
  resumes, retries and backs off; how the selection prompt reads its input)
  is a verified function with a contract, and the properties that span
  functions are proof functions (`lemma_*`).
- `app/` is the program: argument parsing, HTTP requests, files and the
  terminal. It hands the library plain values and acts on what comes back.
- `tests/` runs the library on concrete inputs.

Calls into `url`, `regex`, `scraper`, `percent-encoding`, `base64` and
`rustc-hash` are made from `src/` through small functions whose contracts
are trusted; their doc comments say what is assumed of each.
