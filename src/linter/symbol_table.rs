//! Definitions and references of anchors, types and imports, keyed by name
//! and kind.
use vstd::prelude::*;

use crate::linter::position::Range;
use crate::text::same_text;

verus! {

/// What a symbol is.
#[derive(Debug, Clone, Copy, PartialEq, Eq, Hash, Structural)]
pub enum SymbolKind {
    /// An anchor definition (`&name`).
    Anchor,
    /// A `#struct` or `#enum` definition.
    Type,
    /// An import statement.
    Import,
    /// A struct field.
    Field,
    /// An enum variant.
    EnumVariant,
}

/// How a symbol is used.
#[derive(Debug, Clone, Copy, PartialEq, Eq, Structural)]
pub enum ReferenceKind {
    /// `*anchor`
    Alias,
    /// `...*anchor`
    Spread,
    /// `:: Type`
    TypeAnnotation,
    Import,
}

/// A defined symbol with where it is defined.
#[derive(Debug, Clone)]
pub struct Symbol {
    pub name: String,
    pub kind: SymbolKind,
    pub range: Range,
    /// A preview or signature, for hover text.
    pub detail: Option<String>,
    pub documentation: Option<String>,
}

/// One use of a symbol.
#[derive(Debug, Clone)]
pub struct SymbolReference {
    pub symbol_name: String,
    pub symbol_kind: SymbolKind,
    pub range: Range,
    pub reference_kind: ReferenceKind,
}

/// Definitions keyed by (name, kind), the last one added winning, and all
/// references in the order they were added.
#[derive(Debug, Clone)]
pub struct SymbolTable {
    symbols: Vec<Symbol>,
    references: Vec<SymbolReference>,
}

/// Whether `s` is defined under the key (`name`, `kind`).
pub open spec fn has_key(s: Symbol, name: Seq<char>, kind: SymbolKind) -> bool {
    s.name@ == name && s.kind == kind
}

/// Whether some definition of `defs` has the key (`name`, `kind`).
pub open spec fn is_defined(defs: Seq<Symbol>, name: Seq<char>, kind: SymbolKind) -> bool {
    exists|i: int| 0 <= i < defs.len() && has_key(#[trigger] defs[i], name, kind)
}

/// The references of `refs` to (`name`, `kind`), in order.
pub open spec fn references_to(
    refs: Seq<SymbolReference>,
    name: Seq<char>,
    kind: SymbolKind,
) -> Seq<SymbolReference> {
    refs.filter(refers_to(name, kind))
}

/// Whether a reference goes to (`name`, `kind`).
pub open spec fn refers_to(name: Seq<char>, kind: SymbolKind) -> spec_fn(SymbolReference) -> bool {
    |r: SymbolReference| r.symbol_name@ == name && r.symbol_kind == kind
}

/// Whether a definition is of `kind` and never referenced in `refs`.
pub open spec fn unreferenced_of(refs: Seq<SymbolReference>, kind: SymbolKind) -> spec_fn(Symbol) -> bool {
    |s: Symbol| s.kind == kind && references_to(refs, s.name@, kind).len() == 0
}

/// No two definitions share a key.
pub open spec fn keys_unique(defs: Seq<Symbol>) -> bool {
    forall|i: int, j: int|
        #![trigger defs[i], defs[j]]
        0 <= i < j < defs.len() ==> !has_key(defs[i], defs[j].name@, defs[j].kind)
}

/// The definitions of `defs` that are of `kind` and never referenced in
/// `refs`, in order.
pub open spec fn unused_of_kind(
    defs: Seq<Symbol>,
    refs: Seq<SymbolReference>,
    kind: SymbolKind,
) -> Seq<Symbol> {
    defs.filter(unreferenced_of(refs, kind))
}

/// `s.subrange(0, i + 1)` filtered is `s.subrange(0, i)` filtered, then `s[i]`
/// if it passes.
pub proof fn lemma_filter_prefix<A>(s: Seq<A>, i: int, p: spec_fn(A) -> bool)
    requires
        0 <= i < s.len(),
    ensures
        s.subrange(0, i + 1).filter(p) == if p(s[i]) {
            s.subrange(0, i).filter(p).push(s[i])
        } else {
            s.subrange(0, i).filter(p)
        },
{
    reveal(Seq::filter);
    assert(s.subrange(0, i + 1).drop_last() =~= s.subrange(0, i));
}

impl SymbolTable {
    /// The definitions, in the order their keys were first added.
    pub closed spec fn defs(self) -> Seq<Symbol> {
        self.symbols@
    }

    /// All references, in the order they were added.
    pub closed spec fn refs(self) -> Seq<SymbolReference> {
        self.references@
    }

    pub closed spec fn wf(self) -> bool {
        keys_unique(self.symbols@)
    }

    pub fn new() -> (r: Self)
        ensures
            r.wf(),
            r.defs().len() == 0,
            r.refs().len() == 0,
    {
        SymbolTable { symbols: Vec::new(), references: Vec::new() }
    }

    /// Adds a definition; one with the same name and kind is replaced.
    pub fn add_symbol(&mut self, symbol: Symbol)
        requires
            old(self).wf(),
        ensures
            final(self).wf(),
            final(self).refs() == old(self).refs(),
            is_defined(old(self).defs(), symbol.name@, symbol.kind) ==> exists|i: int|
                0 <= i < old(self).defs().len() && has_key(
                    #[trigger] old(self).defs()[i],
                    symbol.name@,
                    symbol.kind,
                ) && final(self).defs() == old(self).defs().update(i, symbol),
            !is_defined(old(self).defs(), symbol.name@, symbol.kind) ==> final(self).defs()
                == old(self).defs().push(symbol),
            forall|n: Seq<char>, k: SymbolKind|
                #[trigger] is_defined(final(self).defs(), n, k) <==> (is_defined(
                    old(self).defs(),
                    n,
                    k,
                ) || (n == symbol.name@ && k == symbol.kind)),
    {
        let mut i: usize = 0;
        while i < self.symbols.len()
            invariant
                *self == *old(self),
                keys_unique(self.symbols@),
                i <= self.symbols@.len(),
                forall|j: int|
                    0 <= j < i ==> !has_key(#[trigger] self.symbols@[j], symbol.name@, symbol.kind),
            decreases self.symbols.len() - i,
        {
            if self.symbols[i].kind == symbol.kind && self.symbols[i].name == symbol.name {
                let ghost old_defs = self.symbols@;
                self.symbols.set(i, symbol);
                proof {
                    assert(old_defs == old(self).symbols@);
                    assert(keys_unique(old_defs));
                    assert(has_key(old_defs[i as int], symbol.name@, symbol.kind));
                    assert forall|a: int, b: int|
                        #![trigger self.symbols@[a], self.symbols@[b]] 0 <= a < b < self.symbols@.len() implies !has_key(
                        self.symbols@[a],
                        self.symbols@[b].name@,
                        self.symbols@[b].kind,
                    ) by {
                        if a == i {
                            assert(!has_key(old_defs[i as int], old_defs[b].name@, old_defs[b].kind));
                        } else if b == i {
                            assert(!has_key(old_defs[a], old_defs[i as int].name@, old_defs[i as int].kind));
                        }
                    }
                }
                proof {
                    assert forall|n: Seq<char>, k: SymbolKind|
                        #[trigger] is_defined(self.symbols@, n, k) <==> (is_defined(old_defs, n, k) || (
                        n == symbol.name@ && k == symbol.kind)) by {
                        if is_defined(old_defs, n, k) {
                            let j = choose|j: int| 0 <= j < old_defs.len() && has_key(old_defs[j], n, k);
                            if j == i {
                                assert(has_key(self.symbols@[j], n, k));
                            } else {
                                assert(has_key(self.symbols@[j], n, k));
                            }
                        }
                        if n == symbol.name@ && k == symbol.kind {
                            assert(has_key(self.symbols@[i as int], n, k));
                        }
                        if is_defined(self.symbols@, n, k) {
                            let j = choose|j: int| 0 <= j < self.symbols@.len() && has_key(self.symbols@[j], n, k);
                            if j != i {
                                assert(has_key(old_defs[j], n, k));
                            }
                        }
                    }
                }
                return ;
            }
            i = i + 1;
        }
        self.symbols.push(symbol);
        proof {
            let od = old(self).symbols@;
            assert forall|n: Seq<char>, k: SymbolKind|
                #[trigger] is_defined(self.symbols@, n, k) <==> (is_defined(od, n, k) || (n
                == symbol.name@ && k == symbol.kind)) by {
                if is_defined(od, n, k) {
                    let j = choose|j: int| 0 <= j < od.len() && has_key(od[j], n, k);
                    assert(has_key(self.symbols@[j], n, k));
                }
                if n == symbol.name@ && k == symbol.kind {
                    assert(has_key(self.symbols@[od.len() as int], n, k));
                }
                if is_defined(self.symbols@, n, k) {
                    let j = choose|j: int| 0 <= j < self.symbols@.len() && has_key(self.symbols@[j], n, k);
                    if j < od.len() {
                        assert(has_key(od[j], n, k));
                    }
                }
            }
        }
        proof {
            assert forall|a: int, b: int|
                #![trigger self.symbols@[a], self.symbols@[b]] 0 <= a < b < self.symbols@.len() implies !has_key(
                self.symbols@[a],
                self.symbols@[b].name@,
                self.symbols@[b].kind,
            ) by {
                if b == self.symbols@.len() - 1 {
                    assert(!has_key(old(self).symbols@[a], symbol.name@, symbol.kind));
                } else {
                    assert(!has_key(old(self).symbols@[a], old(self).symbols@[b].name@, old(self).symbols@[b].kind));
                }
            }
        }
    }

    /// Adds a reference after all the others.
    pub fn add_reference(&mut self, reference: SymbolReference)
        requires
            old(self).wf(),
        ensures
            final(self).wf(),
            final(self).defs() == old(self).defs(),
            final(self).refs() == old(self).refs().push(reference),
    {
        self.references.push(reference);
    }

    /// The definition with this name and kind, if any.
    pub fn find_symbol(&self, name: &str, kind: SymbolKind) -> (r: Option<&Symbol>)
        ensures
            r.is_some() == is_defined(self.defs(), name@, kind),
            r.is_some() ==> exists|i: int|
                0 <= i < self.defs().len() && #[trigger] self.defs()[i] == *r.unwrap() && has_key(
                    self.defs()[i],
                    name@,
                    kind,
                ),
    {
        let mut i: usize = 0;
        while i < self.symbols.len()
            invariant
                i <= self.symbols@.len(),
                forall|j: int| 0 <= j < i ==> !has_key(#[trigger] self.symbols@[j], name@, kind),
            decreases self.symbols.len() - i,
        {
            if self.symbols[i].kind == kind && same_text(self.symbols[i].name.as_str(), name) {
                proof {
                    assert(self.defs()[i as int] == self.symbols@[i as int]);
                }
                return Some(&self.symbols[i]);
            }
            i = i + 1;
        }
        None
    }

    /// The references to this name and kind, in the order they were added.
    pub fn find_references(&self, name: &str, kind: SymbolKind) -> (r: Vec<&SymbolReference>)
        ensures
            r@.len() == references_to(self.refs(), name@, kind).len(),
            forall|i: int|
                0 <= i < r@.len() ==> *r@[i] == references_to(self.refs(), name@, kind)[i],
    {
        let ghost p = refers_to(name@, kind);
        let mut r: Vec<&SymbolReference> = Vec::new();
        let mut i: usize = 0;
        while i < self.references.len()
            invariant
                i <= self.references@.len(),
                p == refers_to(name@, kind),
                r@.len() == self.references@.subrange(0, i as int).filter(p).len(),
                forall|j: int|
                    0 <= j < r@.len() ==> *r@[j] == self.references@.subrange(0, i as int).filter(
                        p,
                    )[j],
            decreases self.references.len() - i,
        {
            proof {
                lemma_filter_prefix(self.references@, i as int, p);
            }
            if self.references[i].symbol_kind == kind && same_text(
                self.references[i].symbol_name.as_str(),
                name,
            ) {
                r.push(&self.references[i]);
            }
            i = i + 1;
        }
        proof {
            assert(self.references@.subrange(0, self.references@.len() as int) =~= self.references@);
        }
        r
    }

    /// The definitions of one kind, in order.
    pub fn symbols_by_kind(&self, kind: SymbolKind) -> (r: Vec<&Symbol>)
        ensures
            r@.len() == self.defs().filter(|s: Symbol| s.kind == kind).len(),
            forall|i: int|
                0 <= i < r@.len() ==> *r@[i] == self.defs().filter(|s: Symbol| s.kind == kind)[i],
    {
        let ghost p = |s: Symbol| s.kind == kind;
        let mut r: Vec<&Symbol> = Vec::new();
        let mut i: usize = 0;
        while i < self.symbols.len()
            invariant
                i <= self.symbols@.len(),
                p == (|s: Symbol| s.kind == kind),
                r@.len() == self.symbols@.subrange(0, i as int).filter(p).len(),
                forall|j: int|
                    0 <= j < r@.len() ==> *r@[j] == self.symbols@.subrange(0, i as int).filter(p)[j],
            decreases self.symbols.len() - i,
        {
            proof {
                lemma_filter_prefix(self.symbols@, i as int, p);
            }
            if self.symbols[i].kind == kind {
                r.push(&self.symbols[i]);
            }
            i = i + 1;
        }
        proof {
            assert(self.symbols@.subrange(0, self.symbols@.len() as int) =~= self.symbols@);
        }
        r
    }

    /// How many references go to this name and kind.
    fn reference_count_to(&self, name: &str, kind: SymbolKind) -> (r: usize)
        ensures
            r == references_to(self.refs(), name@, kind).len(),
    {
        self.find_references(name, kind).len()
    }

    /// Whether the symbol is defined and never referenced.
    pub fn is_unused(&self, name: &str, kind: SymbolKind) -> (r: bool)
        ensures
            r == (is_defined(self.defs(), name@, kind) && references_to(
                self.refs(),
                name@,
                kind,
            ).len() == 0),
    {
        self.find_symbol(name, kind).is_some() && self.reference_count_to(name, kind) == 0
    }

    /// The definitions of `kind` that are never referenced, in order.
    pub fn find_unused_symbols(&self, kind: SymbolKind) -> (r: Vec<&Symbol>)
        ensures
            r@.len() == unused_of_kind(self.defs(), self.refs(), kind).len(),
            forall|i: int|
                0 <= i < r@.len() ==> *r@[i] == unused_of_kind(self.defs(), self.refs(), kind)[i],
    {
        let ghost p = unreferenced_of(self.refs(), kind);
        let mut r: Vec<&Symbol> = Vec::new();
        let mut i: usize = 0;
        while i < self.symbols.len()
            invariant
                i <= self.symbols@.len(),
                p == unreferenced_of(self.refs(), kind),
                r@.len() == self.symbols@.subrange(0, i as int).filter(p).len(),
                forall|j: int|
                    0 <= j < r@.len() ==> *r@[j] == self.symbols@.subrange(0, i as int).filter(p)[j],
            decreases self.symbols.len() - i,
        {
            proof {
                lemma_filter_prefix(self.symbols@, i as int, p);
            }
            if self.symbols[i].kind == kind && self.reference_count_to(
                self.symbols[i].name.as_str(),
                kind,
            ) == 0 {
                r.push(&self.symbols[i]);
            }
            i = i + 1;
        }
        proof {
            assert(self.symbols@.subrange(0, self.symbols@.len() as int) =~= self.symbols@);
        }
        r
    }

    /// Removes every definition and reference.
    pub fn clear(&mut self)
        ensures
            final(self).wf(),
            final(self).defs().len() == 0,
            final(self).refs().len() == 0,
    {
        self.symbols = Vec::new();
        self.references = Vec::new();
    }

    pub fn symbol_count(&self) -> (r: usize)
        ensures
            r == self.defs().len(),
    {
        self.symbols.len()
    }

    pub fn reference_count(&self) -> (r: usize)
        ensures
            r == self.refs().len(),
    {
        self.references.len()
    }
}

} // verus!
