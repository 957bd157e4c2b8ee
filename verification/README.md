# tmpfs

An in-memory file system for a FUSE mount, written in Verus.

- `src/` is the verified library. `spec.rs` gives the abstract state
  (`FsState`: files, attributes and inodes as maps) and what every request
  does to it; `fs.rs` holds `TmpFS` and its requests, each proved to do what
  `spec.rs` says; `inode.rs` keeps a directory's children in the byte order of
  their names, in a sorted `Vec` of entries; `file.rs` holds a file's bytes; `names.rs` orders names;
  `laws.rs` proves what holds across requests (the invariant is kept, a read
  gives back what a write wrote, a lookup finds what `mkdir` or `create` made,
  and so on); `clock.rs` reads the clock through the `time` crate.
- `app/` mounts the file system with the `fuse` crate and turns its answers
  into FUSE replies and error numbers.
- `tests/` runs the library on concrete requests.

## Why a directory's children are a sorted `Vec`

A directory's children are keyed by `String`. vstd specifies `BTreeMap`'s
`insert`, `get`, `remove` and `contains_key` only under `obeys_cmp::<Key>()`,
and it proves that property for the integer types (and tuples and options of
them), not for `String`. With `String` keys Verus accepts the calls but knows
nothing of their results, so no contract over a directory's children could be
proved through a `BTreeMap<String, u64>`. The children are therefore a `Vec`
of entries kept strictly sorted by the bytes of their names, which is the
order a `BTreeMap<String, _>` iterates in; `names.rs` and `inode.rs` prove the
ordering and the map the entries stand for. The tables keyed by inode number
stay `BTreeMap<u64, _>`, which vstd does specify.
