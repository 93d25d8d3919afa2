# brace

A small static site generator for a personal blog: Markdown posts with YAML
front matter become a site of HTML pages, a post index and an RSS feed.

- `src/` is the library, written in Verus and verified: front-matter
  splitting, post assembly (slugs, default titles and dates, page links,
  date texts), the listing of published posts newest first, draft slugs and
  draft documents, the front-matter update that publishes a draft (stated
  over what serde_yml reads and writes, which is trusted, not proved), the
  dev server's request-path
  resolution and content types, the site's output layout, and the choice of
  syntect theme for the syntax style sheet.
- `app/` is the `brace` command around it: argument parsing, files,
  templates (tera), Markdown rendering (comrak with a syntect highlighter),
  the HTTP server and the file watcher.
- `tests/` exercises the library, often against the std and chrono
  behaviour it is specified to match.
