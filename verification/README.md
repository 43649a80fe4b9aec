# rebuilderd

The decisions behind reproducing packages, verified with Verus.

The library in `src/` does no input or output. Where work outside of it and
decisions take turns, it says what to do next and is told what came of it:

- `rebuild`: the course of a rebuild, from the downloads to a report on every
  artifact; `backend` and `attest` say how the build is run and what is signed.
- `heartbeat`: when the daemon is told that a rebuild is alive.
- `compare`: comparing two files chunk by chunk, from where `rpm` says that the
  signature of a package ends.
- `sync`: syncing the packages of openSUSE; `opensuse` groups them into reports,
  `url` resolves their locations, and `sync_laws` and `artifact_order` hold what is
  true of the reports of every sync.
- `report` and `repomd`: the data that goes in and out.
- `sorted_map`, `order` and `text`: what the rest is built on.

`app/` runs these on files and over the network.

What is trusted without proof stands in `attest`: that it depends on a signed link
alone whether it can be written, and that it is written as a json object of its
signatures and what they sign.
