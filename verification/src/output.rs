//! The interface between a parse engine and the output it builds.

use vstd::prelude::*;

use crate::intern::{self, CompiledRule, SymbolTable};
use crate::tree::{Meta, Token};

verus! {

/// The grammar tables that an [`OutputBuilder`] may consult.
pub struct OutputContext<'g> {
    pub rules: &'g [CompiledRule],
    pub symbols: &'g SymbolTable,
}

impl<'g> OutputContext<'g> {
    /// The label of the nodes that a rule builds.
    pub fn callback_name(&self, rule: usize) -> (name: &'g str)
        requires
            rule < self.rules@.len(),
        ensures
            name@ == intern::rule_names(self.rules@)[rule as int],
            name@ == self.rules@[rule as int].tree_name@,
    {
        self.rules[rule].tree_name.as_str()
    }
}

/// What a parse engine calls as it shifts and reduces. Each call returns a
/// value for the engine's stack; the values of a rule's symbols come back as
/// the `children` of its reduction.
pub trait OutputBuilder<'i> {
    type Value;

    /// Whether the builder takes this token in its present state. A builder
    /// takes every token unless it says otherwise.
    open spec fn accepts_token(&self, token: Token, input: &'i str) -> bool {
        true
    }

    /// Whether the builder takes a reduction of these children in its present
    /// state. A builder takes every reduction unless it says otherwise.
    open spec fn accepts_reduce(&self, rule: usize, children: Seq<Self::Value>) -> bool {
        true
    }

    /// Whether the builder takes a placeholder in its present state. A builder
    /// takes every placeholder unless it says otherwise.
    open spec fn accepts_placeholder(&self) -> bool {
        true
    }

    /// A terminal was shifted.
    fn token(&mut self, token: Token, input: &'i str, ctx: &OutputContext) -> (value: Self::Value)
        requires
            old(self).accepts_token(token, input),
    ;

    /// A rule was reduced.
    fn reduce(
        &mut self,
        rule: usize,
        children: &mut Vec<Self::Value>,
        meta: &Meta,
        ctx: &OutputContext,
    ) -> (value: Self::Value)
        requires
            old(self).accepts_reduce(rule, old(children)@),
    ;

    /// An optional was absent.
    fn placeholder(&mut self, ctx: &OutputContext) -> (value: Self::Value)
        requires
            old(self).accepts_placeholder(),
    ;
}

} // verus!
