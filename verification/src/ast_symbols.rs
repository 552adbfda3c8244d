use vstd::prelude::*;

verus! {

/// A per-module symbol table as the parser hands it over: one declared name
/// and one declaring scope per symbol id, position `i` belonging to symbol `i`.
pub struct SymbolTable {
    pub names: Vec<String>,
    pub scope_ids: Vec<u32>,
}

impl SymbolTable {
    pub open spec fn wf(&self) -> bool {
        self.names@.len() == self.scope_ids@.len()
    }
}

/// The append-only per-module store of symbol names and declaring scopes,
/// queryable by symbol id. Entries are never removed or renamed once created;
/// renaming for output is a chunk-local concern of the canonical-name map.
pub struct AstSymbols {
    pub names: Vec<String>,
    pub scope_ids: Vec<u32>,
}

impl AstSymbols {
    pub open spec fn wf(&self) -> bool {
        self.names@.len() == self.scope_ids@.len()
    }

    pub open spec fn len(&self) -> nat {
        self.names@.len()
    }

    /// Takes over a parsed module's symbol table unchanged.
    pub fn from_symbol_table(table: SymbolTable) -> (r: Self)
        requires
            table.wf(),
        ensures
            r.wf(),
            r.names@ == table.names@,
            r.scope_ids@ == table.scope_ids@,
    {
        AstSymbols { names: table.names, scope_ids: table.scope_ids }
    }

    /// Appends a (name, scope) pair; the returned identifier is the table's
    /// previous length, so identifiers grow monotonically and all earlier
    /// entries keep their place.
    pub fn create_symbol(&mut self, name: String, scope_id: u32) -> (id: u32)
        requires
            old(self).wf(),
            old(self).len() < u32::MAX,
        ensures
            final(self).wf(),
            id == old(self).len(),
            final(self).names@ == old(self).names@.push(name),
            final(self).scope_ids@ == old(self).scope_ids@.push(scope_id),
    {
        let id = self.names.len() as u32;
        self.scope_ids.push(scope_id);
        self.names.push(name);
        id
    }

    /// The declaring scope of symbol `symbol_id`.
    pub fn scope_id_for(&self, symbol_id: u32) -> (r: u32)
        requires
            self.wf(),
            symbol_id < self.len(),
        ensures
            r == self.scope_ids@[symbol_id as int],
    {
        self.scope_ids[symbol_id as usize]
    }
}

} // verus!
