//! Owned parse trees, and the ghost values that contracts compare them by.

use vstd::prelude::*;

use crate::intern::SymbolId;

verus! {

/// How a source position is stored.
pub type PosInt = u32;

/// `pos` as a stored position.
pub fn checked_pos(pos: usize) -> (stored: PosInt)
    requires
        pos <= PosInt::MAX,
    ensures
        stored == pos,
{
    pos as PosInt
}

/// A matched terminal. `start_pos` and `end_pos` count characters of the input.
#[derive(Debug)]
pub struct Token {
    pub type_id: SymbolId,
    pub type_: String,
    pub value: String,
    pub line: PosInt,
    pub column: PosInt,
    pub end_line: PosInt,
    pub end_column: PosInt,
    pub start_pos: PosInt,
    pub end_pos: PosInt,
}

/// The source range that a tree node covers, as far as it is known.
#[derive(Debug, Clone, Copy, Default)]
pub struct Meta {
    pub line: Option<PosInt>,
    pub column: Option<PosInt>,
    pub end_line: Option<PosInt>,
    pub end_column: Option<PosInt>,
    pub start_pos: Option<PosInt>,
    pub end_pos: Option<PosInt>,
}

/// A tree node: the label of its rule, and its children.
#[derive(Debug)]
pub struct Tree {
    pub data: String,
    pub children: Vec<Child>,
    pub meta: Meta,
}

/// A child of a tree node.
#[derive(Debug)]
pub enum Child {
    Tree(Tree),
    Token(Token),
    /// An absent optional.
    Absent,
}

/// The result of a parse.
#[derive(Debug)]
pub enum ParseTree {
    Tree(Tree),
    Token(Token),
    Absent,
}

/// A [`Token`] with its strings as character sequences.
pub struct TokenView {
    pub type_id: SymbolId,
    pub type_: Seq<char>,
    pub value: Seq<char>,
    pub line: PosInt,
    pub column: PosInt,
    pub end_line: PosInt,
    pub end_column: PosInt,
    pub start_pos: PosInt,
    pub end_pos: PosInt,
}

/// A [`Child`] or [`ParseTree`], down to its leaves.
pub enum NodeView {
    Tree { data: Seq<char>, children: Seq<NodeView>, meta: Meta },
    Token(TokenView),
    Absent,
}

impl Token {
    pub open spec fn view(&self) -> TokenView {
        TokenView {
            type_id: self.type_id,
            type_: self.type_@,
            value: self.value@,
            line: self.line,
            column: self.column,
            end_line: self.end_line,
            end_column: self.end_column,
            start_pos: self.start_pos,
            end_pos: self.end_pos,
        }
    }
}

impl Tree {
    pub open spec fn view(&self) -> NodeView
        decreases self,
    {
        NodeView::Tree {
            data: self.data@,
            children: Seq::new(
                self.children@.len(),
                |i: int|
                    if 0 <= i < self.children@.len() {
                        self.children@[i].view()
                    } else {
                        NodeView::Absent
                    },
            ),
            meta: self.meta,
        }
    }
}

impl Child {
    pub open spec fn view(&self) -> NodeView
        decreases self,
    {
        match self {
            Child::Tree(t) => t.view(),
            Child::Token(t) => NodeView::Token(t.view()),
            Child::Absent => NodeView::Absent,
        }
    }
}

impl ParseTree {
    pub open spec fn view(&self) -> NodeView {
        match self {
            ParseTree::Tree(t) => t.view(),
            ParseTree::Token(t) => NodeView::Token(t.view()),
            ParseTree::Absent => NodeView::Absent,
        }
    }
}

} // verus!
