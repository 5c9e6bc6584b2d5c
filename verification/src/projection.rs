//! What a tape stands for.

use vstd::prelude::*;

use crate::tape::TapeEntry;
use crate::text;
use crate::tree::{NodeView, PosInt, TokenView, Tree};

verus! {

/// A tape together with the input and the grammar names that it refers to.
pub struct TapeView {
    pub input: Seq<char>,
    pub rules: Seq<Seq<char>>,
    pub symbols: Seq<Seq<char>>,
    pub nodes: Seq<TapeEntry>,
    pub kids: Seq<u32>,
    pub root: u32,
}

impl TapeView {
    /// Whether a byte span is a piece of the input.
    pub open spec fn has_text(self, byte_start: PosInt, byte_end: PosInt) -> bool {
        &&& byte_start <= byte_end
        &&& text::on_boundary(self.input, byte_start as nat)
        &&& text::on_boundary(self.input, byte_end as nat)
    }

    /// The input between two byte offsets.
    pub open spec fn text(self, byte_start: PosInt, byte_end: PosInt) -> Seq<char> {
        text::text_between(self.input, byte_start as nat, byte_end as nat)
    }

    /// Whether a range lies within the child array. Its end has to be a `u32`.
    pub open spec fn has_kids(self, kids_start: u32, kids_len: u32) -> bool {
        &&& kids_start + kids_len <= u32::MAX
        &&& kids_start + kids_len <= self.kids.len()
    }

    /// The children of an entry: a node's range of the child array, and none
    /// for any other entry.
    pub open spec fn children(self, entry: TapeEntry) -> Seq<u32> {
        match entry {
            TapeEntry::Node { kids_start, kids_len, .. } => self.kids.subrange(
                kids_start as int,
                kids_start + kids_len,
            ),
            _ => Seq::empty(),
        }
    }

    /// The owned token that a token entry stands for.
    pub open spec fn token_of(self, entry: TapeEntry) -> TokenView {
        match entry {
            TapeEntry::Token {
                type_id,
                byte_start,
                byte_end,
                line,
                column,
                end_line,
                end_column,
                start_pos,
                end_pos,
            } => TokenView {
                type_id,
                type_: self.symbols[type_id.0 as int],
                value: self.text(byte_start, byte_end),
                line,
                column,
                end_line,
                end_column,
                start_pos,
                end_pos,
            },
            _ => arbitrary(),
        }
    }

    /// Whether all that an entry itself refers to is there: its name, its text,
    /// its range of the child array.
    pub open spec fn readable(self, entry: TapeEntry) -> bool {
        match entry {
            TapeEntry::Token { type_id, byte_start, byte_end, .. } => {
                &&& type_id.0 < self.symbols.len()
                &&& self.has_text(byte_start, byte_end)
            },
            TapeEntry::Node { rule, kids_start, kids_len, .. } => {
                &&& rule < self.rules.len()
                &&& self.has_kids(kids_start, kids_len)
            },
            TapeEntry::Absent => true,
        }
    }

    /// Whether the entry at `idx`, and all that it leads to, is there and
    /// readable, with at most `depth` nodes nested in each other.
    pub open spec fn resolves(self, idx: int, depth: nat) -> bool
        decreases depth,
    {
        &&& 0 <= idx < self.nodes.len()
        &&& self.readable(self.nodes[idx])
        &&& self.nodes[idx] is Node ==> depth > 0 && forall|k: int|
            0 <= k < self.children(self.nodes[idx]).len() ==> self.resolves(
                #[trigger] self.children(self.nodes[idx])[k] as int,
                (depth - 1) as nat,
            )
    }

    /// The tree that grows from the entry at `idx`, down to `depth` nested
    /// nodes.
    pub open spec fn grown(self, idx: int, depth: nat) -> NodeView
        decreases depth,
    {
        match self.nodes[idx] {
            TapeEntry::Token { .. } => NodeView::Token(self.token_of(self.nodes[idx])),
            TapeEntry::Node { rule, meta, .. } => NodeView::Tree {
                data: self.rules[rule as int],
                children: self.children(self.nodes[idx]).map_values(
                    |kid: u32|
                        if depth > 0 {
                            self.grown(kid as int, (depth - 1) as nat)
                        } else {
                            NodeView::Absent
                        },
                ),
                meta,
            },
            TapeEntry::Absent => NodeView::Absent,
        }
    }

    /// Whether the entry at `idx` stands for a finite tree: all that it leads
    /// to is there and readable, and nothing contains itself.
    pub open spec fn projectable(self, idx: int) -> bool {
        exists|depth: nat| self.resolves(idx, depth)
    }

    /// How many nodes are nested in each other from the entry at `idx` down.
    pub open spec fn height(self, idx: int) -> nat {
        choose|depth: nat|
            {
                &&& self.resolves(idx, depth)
                &&& forall|less: nat| less < depth ==> !self.resolves(idx, less)
            }
    }

    /// The tree that the entry at `idx` stands for.
    pub open spec fn projection(self, idx: int) -> NodeView {
        self.grown(idx, self.height(idx))
    }

    proof fn lemma_deeper(self, idx: int, depth: nat, more: nat)
        requires
            self.resolves(idx, depth),
            depth <= more,
        ensures
            self.resolves(idx, more),
            self.grown(idx, depth) == self.grown(idx, more),
        decreases depth,
    {
        if self.nodes[idx] is Node {
            let kids = self.children(self.nodes[idx]);
            assert forall|k: int| 0 <= k < kids.len() implies {
                &&& self.resolves(#[trigger] kids[k] as int, (more - 1) as nat)
                &&& self.grown(kids[k] as int, (depth - 1) as nat) == self.grown(
                    kids[k] as int,
                    (more - 1) as nat,
                )
            } by {
                self.lemma_deeper(kids[k] as int, (depth - 1) as nat, (more - 1) as nat);
            }
            assert(self.grown(idx, depth)->children =~= self.grown(idx, more)->children);
        }
    }

    proof fn lemma_height_exists(self, idx: int, depth: nat)
        requires
            self.resolves(idx, depth),
        ensures
            self.resolves(idx, self.height(idx)),
            forall|less: nat| less < self.height(idx) ==> !self.resolves(idx, less),
        decreases depth,
    {
        if exists|less: nat| less < depth && self.resolves(idx, less) {
            let less = choose|less: nat| less < depth && self.resolves(idx, less);
            self.lemma_height_exists(idx, less);
        }
    }

    /// Any sufficient depth shows the whole tree.
    pub proof fn lemma_grown(self, idx: int, depth: nat)
        requires
            self.resolves(idx, depth),
        ensures
            self.resolves(idx, self.height(idx)),
            self.height(idx) <= depth,
            self.projection(idx) == self.grown(idx, depth),
    {
        self.lemma_height_exists(idx, depth);
        if self.height(idx) > depth {
            assert(!self.resolves(idx, depth));
        }
        self.lemma_deeper(idx, self.height(idx), depth);
    }

    /// What a node leads to is nested less deep than the node.
    pub proof fn lemma_kids_are_lower(self, idx: int)
        requires
            self.projectable(idx),
        ensures
            0 <= idx < self.nodes.len(),
            self.readable(self.nodes[idx]),
            forall|k: int|
                #![trigger self.children(self.nodes[idx])[k]]
                0 <= k < self.children(self.nodes[idx]).len() ==> {
                    let kid = self.children(self.nodes[idx])[k] as int;
                    self.projectable(kid) && self.height(kid) < self.height(idx)
                },
    {
        self.lemma_grown(idx, choose|depth: nat| self.resolves(idx, depth));
        let depth = self.height(idx);
        let kids = self.children(self.nodes[idx]);
        assert forall|k: int| 0 <= k < kids.len() implies {
            &&& self.projectable(#[trigger] kids[k] as int)
            &&& self.height(kids[k] as int) < depth
        } by {
            self.lemma_grown(kids[k] as int, (depth - 1) as nat);
        }
    }

    proof fn lemma_common_depth(self, kids: Seq<u32>) -> (depth: nat)
        requires
            forall|k: int| 0 <= k < kids.len() ==> self.projectable(#[trigger] kids[k] as int),
        ensures
            forall|k: int| 0 <= k < kids.len() ==> self.resolves(#[trigger] kids[k] as int, depth),
        decreases kids.len(),
    {
        if kids.len() == 0 {
            0
        } else {
            let rest = self.lemma_common_depth(kids.drop_last());
            let last = choose|depth: nat| self.resolves(kids.last() as int, depth);
            let depth = if rest >= last {
                rest
            } else {
                last
            };
            assert forall|k: int| 0 <= k < kids.len() implies self.resolves(
                #[trigger] kids[k] as int,
                depth,
            ) by {
                if k < kids.len() - 1 {
                    assert(kids.drop_last()[k] == kids[k]);
                    self.lemma_deeper(kids[k] as int, rest, depth);
                } else {
                    self.lemma_deeper(kids[k] as int, last, depth);
                }
            }
            depth
        }
    }

    /// Whether the children of an entry stand for trees.
    pub open spec fn kids_projectable(self, entry: TapeEntry) -> bool {
        forall|k: int|
            0 <= k < self.children(entry).len() ==> self.projectable(
                #[trigger] self.children(entry)[k] as int,
            )
    }

    /// What an entry stands for, in terms of what its children stand for.
    pub open spec fn unfolded(self, entry: TapeEntry) -> NodeView {
        match entry {
            TapeEntry::Token { .. } => NodeView::Token(self.token_of(entry)),
            TapeEntry::Node { rule, meta, .. } => NodeView::Tree {
                data: self.rules[rule as int],
                children: self.children(entry).map_values(
                    |kid: u32| self.projection(kid as int),
                ),
                meta,
            },
            TapeEntry::Absent => NodeView::Absent,
        }
    }

    proof fn lemma_folds(self, idx: int)
        requires
            0 <= idx < self.nodes.len(),
            self.readable(self.nodes[idx]),
            self.kids_projectable(self.nodes[idx]),
        ensures
            self.projectable(idx),
            self.projection(idx) == self.unfolded(self.nodes[idx]),
    {
        let kids = self.children(self.nodes[idx]);
        let depth = self.lemma_common_depth(kids);
        assert(self.resolves(idx, depth + 1));
        self.lemma_grown(idx, depth + 1);
        if self.nodes[idx] is Node {
            assert forall|k: int| 0 <= k < kids.len() implies self.projection(
                #[trigger] kids[k] as int,
            ) == self.grown(kids[k] as int, depth) by {
                self.lemma_grown(kids[k] as int, depth);
            }
            assert(self.grown(idx, depth + 1)->children =~= self.unfolded(
                self.nodes[idx],
            )->children);
        }
    }

    /// The projection goes entry by entry. An entry stands for a tree if and
    /// only if it is readable and its children stand for trees. A token entry
    /// then stands for its token, an absent one for nothing, and a node for its
    /// label, its source range, and what its children stand for, in order.
    pub proof fn projection_unfolds(self, idx: int)
        requires
            0 <= idx < self.nodes.len(),
        ensures
            self.projectable(idx) <==> {
                &&& self.readable(self.nodes[idx])
                &&& self.kids_projectable(self.nodes[idx])
            },
            self.projectable(idx) ==> self.projection(idx) == self.unfolded(self.nodes[idx]),
    {
        if self.projectable(idx) {
            self.lemma_kids_are_lower(idx);
        }
        if self.readable(self.nodes[idx]) && self.kids_projectable(self.nodes[idx]) {
            self.lemma_folds(idx);
        }
    }

    /// A tree is what a node stands for, if its children are what the node's
    /// children stand for.
    pub proof fn lemma_tree_unfolds(self, idx: int, tree: Tree)
        requires
            self.projectable(idx),
            self.nodes[idx] matches TapeEntry::Node { rule, meta, .. } && {
                &&& tree.data@ == self.rules[rule as int]
                &&& tree.meta == meta
            },
            tree.children@.len() == self.children(self.nodes[idx]).len(),
            forall|k: int|
                0 <= k < tree.children@.len() ==> (#[trigger] tree.children@[k])@
                    == self.projection(self.children(self.nodes[idx])[k] as int),
        ensures
            tree@ == self.projection(idx),
    {
        self.lemma_kids_are_lower(idx);
        self.projection_unfolds(idx);
        assert(tree@->children =~= self.unfolded(self.nodes[idx])->children);
    }
}

} // verus!
