//! The symbol table: the line on which each label was declared.
use vstd::hash_map::StringHashMap;
use vstd::prelude::*;

verus! {

/// A map from label names to line numbers. Names are told apart to the
/// letter, case included. A name that is declared again takes the new line.
pub struct SymbolTable {
    lines: StringHashMap<usize>,
}

impl View for SymbolTable {
    type V = Map<Seq<char>, usize>;

    closed spec fn view(&self) -> Map<Seq<char>, usize> {
        self.lines@
    }
}

impl SymbolTable {
    /// A table without entries.
    pub fn new() -> (table: SymbolTable)
        ensures
            table@ == Map::<Seq<char>, usize>::empty(),
    {
        SymbolTable { lines: StringHashMap::new() }
    }

    /// Takes every entry out.
    pub fn clear(&mut self)
        ensures
            final(self)@ == Map::<Seq<char>, usize>::empty(),
    {
        self.lines.clear();
    }

    /// Binds `name` to `line`, whether or not it was bound before.
    pub fn insert(&mut self, name: String, line: usize)
        ensures
            final(self)@ == old(self)@.insert(name@, line),
    {
        self.lines.insert(name, line);
    }

    /// The line that `name` is bound to, if it is bound.
    pub fn get(&self, name: &String) -> (line: Option<usize>)
        ensures
            line == (if self@.contains_key(name@) {
                Some(self@[name@])
            } else {
                None
            }),
    {
        match self.lines.get(name.as_str()) {
            Some(line) => Some(*line),
            None => None,
        }
    }
}

} // verus!
