//! Interned grammar names.

use vstd::prelude::*;

verus! {

/// An interned grammar symbol: its position in the [`SymbolTable`].
#[derive(Debug, Clone, Copy, PartialEq, Eq, Structural, Hash)]
pub struct SymbolId(pub u32);

/// The names of the grammar's symbols, in the order of their ids.
#[derive(Debug)]
pub struct SymbolTable {
    pub names: Vec<String>,
}

impl SymbolTable {
    /// The names as character sequences.
    pub open spec fn view(&self) -> Seq<Seq<char>> {
        Seq::new(self.names@.len(), |i: int| self.names@[i]@)
    }

    /// The name of a symbol.
    pub fn name(&self, id: SymbolId) -> (name: &str)
        requires
            id.0 < self@.len(),
        ensures
            name@ == self@[id.0 as int],
            name@ == self.names@[id.0 as int]@,
    {
        self.names[id.0 as usize].as_str()
    }
}

/// What the output side needs of a grammar rule.
#[derive(Debug)]
pub struct CompiledRule {
    /// The callback name: the label of the tree nodes that this rule builds.
    pub tree_name: String,
}

/// The labels of `rules` as character sequences.
pub open spec fn rule_names(rules: Seq<CompiledRule>) -> Seq<Seq<char>> {
    Seq::new(rules.len(), |i: int| rules[i].tree_name@)
}

} // verus!
