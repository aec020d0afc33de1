# devtui

A terminal writing environment for a static blog: a CMS with an article list,
an embedded vim-like editor with a live preview and a writing companion, and
the site generator (`engine`) that turns markdown posts into pages.

The library in `src/` is verified with Verus: each public function states what
it does in `requires`/`ensures`, and Verus proves the code against it.

- `src/buffer.rs`, `src/vim.rs`, `src/vim_model.rs`: the text buffer with undo
  history, and the modal editor, whose every key is held to a step function
  (`key_m`) over a plain model of editor and buffer.
- `src/editor/`: the CMS list view and editing session as state machines that
  return the outside work they need as effects; the preview renderer, the
  writing companion's state, the image picker, the kitty/tmux escapes.
- `src/engine/`: markdown, templates, pages, feed, sitemap, minification.
- `src/trusted.rs` and the `external_body` items elsewhere: the calls into std
  and outside crates, with the contracts they are trusted to meet.

`app/` is the program around the library: the terminal, the pseudo-terminal
running vim, threads, files, the SQLite database and the local web server.
`tests/` runs the library with the real outside crates linked.
