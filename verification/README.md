# lark_tape

A flat-tape output backend for a shift-reduce parser, verified with Verus.

A parse appends everything it recognises to two flat arrays. A token entry holds
positions and the byte span of its text; a node entry holds its rule and a range
of child indices; names are resolved when they are asked for. `TapeTree` reads
such a tape, and projects it to the owned tree on request.

| module | what it holds |
| --- | --- |
| `tape` | `TapeEntry`, `TapeTree`, `TapeBuilder` |
| `output` | `OutputBuilder`, the interface to a parse engine |
| `tree`, `intern` | owned trees and tokens; interned grammar names |
| `text`, `cursor` | byte offsets of characters; the cursor that finds them |
| `steps`, `projection` | what each builder call does; what a tape stands for |
| `laws` | what holds over a whole parse |

The central law is `laws::bare_tape_projects_to_owned_tree`: the calls of a
parse, whatever strings its tokens carry, leave a tape that stands for exactly the
tree that the same calls build directly where every token carries its type name
and its text. It holds of every parse that a tape indexed by `u32` can store.
