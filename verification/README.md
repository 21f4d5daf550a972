# grimvault

The decision logic of Grim Vault — a shell over a Grim Dawn install's
transfer stash, vault store and characters — as a Verus library. Every
function in `src/` carries a contract over a mathematical model and is
proved; the public `law_*` proof functions state what holds across
calls.

- `src/` — the verified library:
  - `documents`, `links`, `guard`, `autosave`, `watch`, `ui_state`,
    `paths`, `touched`: the bookkeeping of the open files, the
    external-change guard (paths compared by components), the links
    between documents edited together, the clocks that decide when to
    write, and what each bulk operation or standing order leaves to be
    written.
  - `drag`, `release`, `panes`, `search`, `crafting`, `automove`,
    `facts`: what a drag or a drop plans, whether a footprint fits, what
    a release commits or snaps back, the confirmations
    and labels the panes show, which rows a search keeps and their sort,
    the standing orders and the work they ask for.
  - `dirs`, `setup`, `campaign`, `characters`, `loader`, `layers`: the
    directories and the files they name, which campaign and character
    a load opens on, and how the archives read in parallel are
    assembled in layer order.
  - `shell`, `text`: the write order, the toasts, the command line, and
    the few pieces of text composed around numbers.
- `tests/` — runtime tests of the library.
- `app/` — a headless shell: it asks the filesystem, hands the answers
  to the library, and prints what a load would open.
