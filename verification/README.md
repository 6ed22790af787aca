# passthroughfs

Removal and renaming of directory entries for a pass-through file system: a guest removes and
renames entries of a directory that a Linux or macOS host shares with it. The library is
written in Verus; everything in `src/` is verified.

An operation is a value that says which host call is due and takes the reply
(`removal::Removal`, `rename::Rename`). `remove_ops` turns a request into one, or refuses it.
When the host has made the change, the operation brings the inode table up to date.

| Module | Holds |
| --- | --- |
| `types` | error numbers, kinds of host, file identities, directory entries |
| `calls` | the host calls and their replies |
| `fs` | the settings of a share and what they refuse |
| `model` | the inode table as mathematics: records, aliases, which records are needed |
| `inode_table` | the table itself |
| `operation` | what holds of every operation: descriptors, failure, termination |
| `removal`, `rename` | the operations |
| `remove_ops` | the requests |
| `laws` | what the operations promise of the table and of the files behind it |

`app/` makes the calls with libc. `tests/` runs the operations on a host held in memory and
step by step.
