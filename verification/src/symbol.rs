//! Symbol and string resolution results. Name resolution happens upstream;
//! the lowering and the interpreter only consume the resolved tables: a
//! symbol table mapping integer handles to name/kind records, and a string
//! list mapping string-table indices to literal text.

use vstd::prelude::*;

verus! {

/// An opaque handle to a resolved symbol: an index into the symbol table.
pub type SymbolRef = usize;

/// What a symbol names.
#[derive(Debug, Clone, PartialEq, Eq, Structural)]
pub enum SymbolKind {
    Variable,
    Function,
}

/// The (currently unused) type annotation of a symbol.
#[derive(Debug, Clone, PartialEq, Eq, Structural)]
pub enum Type {
    Unknown,
    Int,
    Float,
    String,
    Bool,
    Void,
}

/// A name/kind record for one resolved symbol.
#[derive(Debug, Clone)]
pub struct Symbol {
    pub name: String,
    pub kind: SymbolKind,
    pub type_: Type,
}

/// The model of a symbol record.
pub ghost struct SymbolModel {
    pub name: Seq<char>,
    pub kind: SymbolKind,
    pub type_: Type,
}

impl View for Symbol {
    type V = SymbolModel;

    open spec fn view(&self) -> SymbolModel {
        SymbolModel { name: self.name@, kind: self.kind, type_: self.type_ }
    }
}

/// The views of a table of symbol records.
pub open spec fn syms_view(tbl: Seq<Symbol>) -> Seq<SymbolModel> {
    tbl.map_values(|s: Symbol| s@)
}

/// Maps a `SymbolRef` handle to its record. Handles are handed out
/// densely, in insertion order, and never reused, so the table is a
/// vector indexed by handle.
pub struct SymbolTable {
    symbols: Vec<Symbol>,
}

impl SymbolTable {
    /// The table as a sequence of records, indexed by handle.
    pub closed spec fn view(&self) -> Seq<Symbol> {
        self.symbols@
    }

    /// Whether some record in the table carries the given name.
    pub open spec fn spec_contains_name(&self, name: Seq<char>) -> bool {
        exists|i: int| 0 <= i < self@.len() && self@[i].name@ == name
    }

    /// The handle of the first record carrying the given name.
    pub open spec fn spec_ref_of(&self, name: Seq<char>) -> int {
        choose|i: int|
            0 <= i < self@.len() && self@[i].name@ == name && (forall|j: int|
                0 <= j < i ==> self@[j].name@ != name)
    }

    /// An empty table.
    pub fn new() -> (r: Self)
        ensures
            r@.len() == 0,
    {
        Self { symbols: Vec::new() }
    }

    /// Adds a symbol under `name` unless one of that name already exists,
    /// and returns its handle either way. A fresh symbol gets the given
    /// kind and an unknown type; an existing one keeps its record.
    pub fn add(&mut self, name: &str, kind: SymbolKind) -> (r: SymbolRef)
        ensures
            old(self).spec_contains_name(name@) ==> {
                &&& *final(self) == *old(self)
                &&& r == old(self).spec_ref_of(name@)
            },
            !old(self).spec_contains_name(name@) ==> {
                &&& r == old(self)@.len()
                &&& final(self)@.len() == old(self)@.len() + 1
                &&& final(self)@.subrange(0, old(self)@.len() as int) == old(self)@
                &&& final(self)@.last().name@ == name@
                &&& final(self)@.last().kind == kind
                &&& final(self)@.last().type_ == Type::Unknown
            },
            r < final(self)@.len() && final(self)@[r as int].name@ == name@,
    {
        let n = self.symbols.len();
        let mut i: usize = 0;
        while i < n
            invariant
                n == self.symbols.len(),
                i <= n,
                forall|j: int| 0 <= j < i ==> self@[j].name@ != name@,
            decreases n - i,
        {
            if self.symbols[i].name == name.to_owned() {
                return i;
            }
            i += 1;
        }
        let symbol = Symbol { name: name.to_owned(), kind, type_: Type::Unknown };
        self.symbols.push(symbol);
        n
    }

    /// Reads the record of a handle the table has handed out.
    pub fn get(&self, symbol_ref: SymbolRef) -> (r: &Symbol)
        requires
            symbol_ref < self@.len(),
        ensures
            *r == self@[symbol_ref as int],
    {
        &self.symbols[symbol_ref]
    }

    /// The handle of the first symbol carrying `name`, if any does.
    pub fn get_symbol_ref(&self, name: &String) -> (r: Option<SymbolRef>)
        ensures
            r is Some <==> self.spec_contains_name(name@),
            r is Some ==> r->Some_0 == self.spec_ref_of(name@),
    {
        let n = self.symbols.len();
        let mut i: usize = 0;
        while i < n
            invariant
                n == self.symbols.len(),
                i <= n,
                forall|j: int| 0 <= j < i ==> self@[j].name@ != name@,
            decreases n - i,
        {
            if self.symbols[i].name == *name {
                return Some(i);
            }
            i += 1;
        }
        None
    }

    /// Whether some symbol in the table carries `name`.
    pub fn contains_name(&self, name: &str) -> (r: bool)
        ensures
            r == self.spec_contains_name(name@),
    {
        let n = self.symbols.len();
        let mut i: usize = 0;
        while i < n
            invariant
                n == self.symbols.len(),
                i <= n,
                forall|j: int| 0 <= j < i ==> self@[j].name@ != name@,
            decreases n - i,
        {
            if self.symbols[i].name == name.to_owned() {
                return true;
            }
            i += 1;
        }
        false
    }

    /// How many symbols the table holds.
    pub fn len(&self) -> (r: usize)
        ensures
            r == self@.len(),
    {
        self.symbols.len()
    }
}

/// Interned string literals, looked up by index.
pub struct StringList {
    strings: Vec<String>,
}

impl StringList {
    /// The list as a sequence of character sequences, indexed as handed out.
    pub closed spec fn view(&self) -> Seq<Seq<char>> {
        Seq::new(self.strings@.len(), |i: int| self.strings@[i]@)
    }

    /// An empty list.
    pub fn new() -> (r: Self)
        ensures
            r@.len() == 0,
    {
        Self { strings: Vec::new() }
    }

    /// Appends a literal and returns its index.
    pub fn add(&mut self, s: &str) -> (r: usize)
        ensures
            r == old(self)@.len(),
            final(self)@ == old(self)@.push(s@),
    {
        let r = self.strings.len();
        self.strings.push(s.to_owned());
        assert(self@ =~= old(self)@.push(s@));
        r
    }

    /// Reads the literal at an index the list has handed out.
    pub fn get(&self, index: usize) -> (r: &str)
        requires
            index < self@.len(),
        ensures
            r@ == self@[index as int],
    {
        self.strings[index].as_str()
    }

    /// How many literals the list holds.
    pub fn len(&self) -> (r: usize)
        ensures
            r == self@.len(),
    {
        self.strings.len()
    }
}

} // verus!
