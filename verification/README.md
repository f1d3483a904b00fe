# YoutuDlp Bridge

A local web server that drives `yt-dlp`: it resolves addresses into videos and playlists, queues
and runs downloads, and keeps the library of what was downloaded.

`src/` is the library, written in Verus. It holds the rules of the bridge as verified functions
over plain values:

- `text`, `order`, `json`, `clock`, `paths`, `command`: text, sorting, documents, time, places on
  disk and command lines;
- `settings`, `storage`, `tools`, `cookies`, `app`, `events`: the settings and their checks, the
  layout of the state directory and the steps of an atomic write, the programs that are looked
  for, cookie files, startup and events;
- `tasks`: records, the store with its queue and its journal of writes, listing, dispatch,
  recovery, playlists, moved and deleted files, duplicates, orders, deletions, and what is made of
  the documents of `yt-dlp`;
- `downloads`: progress lines, the command of a download, stopping, resuming, restarting and
  starting, how a download ends, and what an unfinished one leaves behind;
- `library`: the tree, folder names, and creating, moving, deleting, renaming and opening items;
- `web`: errors as clients see them, what guards files at work, and the steps of a resolve.

A `TaskStore` is an image of the files on disk. Its operations change the image and note each
write in a journal, which is then carried out in order.

`app/` is ordinary Rust around it: the server, the processes, the files, and the values with what
`serde` needs of them. Before it calls a function of the library that has a `requires`, it tests
the condition.

`tests/` runs the library with the real outside crates.
