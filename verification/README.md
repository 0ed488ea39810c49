# gix_tix

The verified core of a fast, interactive commit graph for terminals, written in Verus.

The library in `src/` holds the view's state and the decisions it and its event loop make, each with a contract that
Verus proves:

- `app`, `update`, `navigation`, `panes`, `loading`, `completion`, `signatures`, `refresh`,
  `reachability`, `rows`: the history view, how it reacts to each action, how batches of loaded
  commits, deferred metadata and signature checks enter it, and how a refresh projects the
  append-only cache of rows onto the tips shown.
- `lanes`, `ordering`: the order in which a finished history is drawn (every commit before its
  parents) and the lane drawing, with checkpoints that redraw any window exactly as a full replay.
- `paint`: ahead and behind counts of the selected commit, painted down the cached commit graph; the
  counts are exact where generation numbers decrease along parents.
- `animation`: the heaviest alignment of the rows of two frames, for emphasizing changed rows.
- `history`, `author`, `commit`, `ids`, `bytes`: reference kinds, agent markers, interned author
  identities and the plain values the rest is built from.
- `reword`: the edit document in which a commit is reworded, its ISO 8601 dates and Git's clean-up of
  the edited message.
- `signing`, `sections`: the signature format, program and key of commit signing, and the `gpg`
  configuration subsections.
- `screen`, `keys`, `position`: how the view occupies the terminal, its key and mouse bindings, and
  the footer's position text.
- `look`, `metadata`, `summary`, `diffstat`, `changes_pane`, `layout`, `message`, `footer`,
  `history_view`: what is drawn, as pieces of text with their colours and emphasis: the metadata
  beside each commit with grouped trailer credits, the summaries of the selection and of the change
  panes, the compact diff summary, the change panes and where they go, the commit message pane, the
  footer, and how the history pans.
- `drawing`: what a frame loads before it is drawn (notes and metadata of the visible rows, the
  message, changes and upstream relation of the selected commit) and which held results it drops.
- `event_loop`: the event loop's decisions as a step from an event to the view's next state and the
  work asked of the surrounding program: workers to start, reference snapshots, refreshes, copies,
  frames, and quitting.
- `laws`: properties that span several actions, such as toggles that undo themselves.

`app/` holds the terminal plumbing that Verus does not see: converting terminal events into the
library's key and mouse values, the library's pieces of text into terminal spans and styles,
filtering worktree watch events, writing copied text, and gathering what a frame is drawn from.
