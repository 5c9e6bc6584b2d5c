//! How each call of the builder changes the tape.

use vstd::prelude::*;

use crate::cursor::Cursor;
use crate::projection::TapeView;
use crate::tape::TapeEntry;
use crate::tree::{Meta, PosInt, TokenView};

verus! {

/// What a tape builder holds.
pub struct BuilderView {
    pub nodes: Seq<TapeEntry>,
    pub kids: Seq<u32>,
    pub cursor: Cursor,
}

impl BuilderView {
    /// A builder that nothing was appended to.
    pub open spec fn empty() -> BuilderView {
        BuilderView { nodes: Seq::empty(), kids: Seq::empty(), cursor: Cursor::start() }
    }

    /// Whether the index of the next entry is a `u32`.
    pub open spec fn can_append(self) -> bool {
        self.nodes.len() <= u32::MAX
    }

    pub open spec fn append(self, entry: TapeEntry) -> BuilderView {
        BuilderView { nodes: self.nodes.push(entry), ..self }
    }

    /// The cursor at the first character of a token.
    pub open spec fn token_start(self, token: TokenView, input: Seq<char>) -> Cursor {
        self.cursor.seek(input, token.start_pos as nat)
    }

    /// The cursor behind the last character of a token.
    pub open spec fn token_end(self, token: TokenView, input: Seq<char>) -> Cursor {
        self.token_start(token, input).seek(input, token.end_pos as nat)
    }

    /// Whether a token of `input` can be appended: the cursor can be moved to
    /// both of its ends, and their byte offsets can be stored.
    pub open spec fn can_append_token(self, token: TokenView, input: Seq<char>) -> bool {
        &&& self.can_append()
        &&& self.cursor.can_seek(input, token.start_pos as nat)
        &&& self.token_start(token, input).can_seek(input, token.end_pos as nat)
        &&& self.token_start(token, input).bytes <= PosInt::MAX
        &&& self.token_end(token, input).bytes <= PosInt::MAX
    }

    /// A token leaves its positions and its byte span on the tape, and the
    /// cursor at its end. Its owned strings are dropped.
    pub open spec fn with_token(self, token: TokenView, input: Seq<char>) -> BuilderView {
        BuilderView {
            cursor: self.token_end(token, input),
            ..self.append(
                TapeEntry::Token {
                    type_id: token.type_id,
                    byte_start: self.token_start(token, input).bytes as PosInt,
                    byte_end: self.token_end(token, input).bytes as PosInt,
                    line: token.line,
                    column: token.column,
                    end_line: token.end_line,
                    end_column: token.end_column,
                    start_pos: token.start_pos,
                    end_pos: token.end_pos,
                },
            )
        }
    }

    /// Whether a node can be appended: where its children begin in the child
    /// array is a `u32`, too.
    pub open spec fn can_append_node(self) -> bool {
        &&& self.can_append()
        &&& self.kids.len() <= u32::MAX
    }

    /// A node leaves its children at the end of the child array and points to
    /// them. The rule and the number of children are stored as `u32`.
    pub open spec fn with_node(self, rule: usize, children: Seq<u32>, meta: Meta) -> BuilderView {
        BuilderView {
            kids: self.kids + children,
            ..self.append(
                TapeEntry::Node {
                    rule: rule as u32,
                    kids_start: self.kids.len() as u32,
                    kids_len: children.len() as u32,
                    meta,
                },
            )
        }
    }

    pub open spec fn with_placeholder(self) -> BuilderView {
        self.append(TapeEntry::Absent)
    }

    /// The tape that was built, over the input and the grammar names.
    pub open spec fn tape(
        self,
        input: Seq<char>,
        rules: Seq<Seq<char>>,
        symbols: Seq<Seq<char>>,
        root: u32,
    ) -> TapeView {
        TapeView { input, rules, symbols, nodes: self.nodes, kids: self.kids, root }
    }
}

} // verus!
