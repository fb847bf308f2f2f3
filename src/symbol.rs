use vstd::prelude::*;

verus! {

/// Direction of a port or of a modport member.
#[derive(Clone, Copy, Debug, PartialEq, Eq, Structural)]
pub enum Direction {
    Input,
    Output,
    Inout,
}

/// A parameter or port of a module or prototype: its name and its type as
/// written, with the direction first for a port.
#[derive(Debug)]
pub struct Signature {
    pub name: String,
    pub ty: String,
}

/// What a symbol stands for. Symbols refer to each other by id.
#[derive(Debug)]
pub enum SymbolKind {
    Module { parameters: Vec<Signature>, ports: Vec<Signature> },
    Interface,
    Package,
    Modport { members: Vec<usize> },
    ModportVariableMember { variable: usize, direction: Direction },
    Port { direction: Direction },
    Variable { ty: String },
    Parameter,
    Const,
    Function,
    SystemFunction,
    GenericParameter { const_bound: bool },
    ProtoModule { parameters: Vec<Signature>, ports: Vec<Signature> },
    Enum,
    EnumMember,
    Struct,
    Union,
    TypeDef,
}

/// An entity discovered in the source, stored in a `SymbolTable`.
#[derive(Debug)]
pub struct Symbol {
    pub name: String,
    pub namespace: Vec<String>,
    pub kind: SymbolKind,
    pub parent: Option<usize>,
}

/// The namespace of a symbol, as a sequence of scope names.
pub open spec fn ns_of(namespace: Seq<String>) -> Seq<Seq<char>> {
    namespace.map_values(|x: String| x@)
}

impl Symbol {
    pub open spec fn name_view(&self) -> Seq<char> {
        self.name@
    }

    pub open spec fn ns_view(&self) -> Seq<Seq<char>> {
        ns_of(self.namespace@)
    }

    pub open spec fn is_package(&self) -> bool {
        self.kind is Package
    }
}

/// Global map from symbol id to symbol record; the id is the position in
/// insertion order.
pub struct SymbolTable {
    symbols: Vec<Symbol>,
}

impl SymbolTable {
    pub closed spec fn view(&self) -> Seq<Symbol> {
        self.symbols@
    }

    /// No two symbols share a name within the same namespace.
    pub open spec fn wf(&self) -> bool {
        forall|i: int, j: int|
            0 <= i < j < self.view().len() ==> !(#[trigger] self.view()[i].name_view()
                == #[trigger] self.view()[j].name_view() && self.view()[i].ns_view()
                == self.view()[j].ns_view())
    }

    /// The id of a symbol named `name` whose namespace is exactly `ns`.
    pub open spec fn declared_at(&self, ns: Seq<Seq<char>>, name: Seq<char>, id: int) -> bool {
        0 <= id < self.view().len() && self.view()[id].ns_view() == ns
            && self.view()[id].name_view() == name
    }

    /// Some symbol named `name` lives exactly in `ns`.
    pub open spec fn has_at(&self, ns: Seq<Seq<char>>, name: Seq<char>) -> bool {
        exists|id: int| self.declared_at(ns, name, id)
    }

    /// `r` is what resolving `name` from scope `ns` gives: the symbol of that
    /// name in the deepest enclosing scope that declares one, or nothing.
    pub open spec fn resolves(&self, ns: Seq<Seq<char>>, name: Seq<char>, r: Option<usize>) -> bool {
        &&& r matches Some(id) ==> exists|d: int|
            0 <= d <= ns.len() && self.declared_at(ns.take(d), name, id as int)
                && forall|e: int| d < e <= ns.len() ==> !#[trigger] self.has_at(ns.take(e), name)
        &&& r is None ==> forall|e: int| 0 <= e <= ns.len() ==> !#[trigger] self.has_at(ns.take(e), name)
    }

    pub fn new() -> (r: Self)
        ensures
            r.view().len() == 0,
            r.wf(),
    {
        SymbolTable { symbols: Vec::new() }
    }

    pub fn len(&self) -> (r: usize)
        ensures
            r == self.view().len(),
    {
        self.symbols.len()
    }

    pub fn get(&self, id: usize) -> (r: Option<&Symbol>)
        ensures
            id < self.view().len() ==> r == Some(&self.view()[id as int]),
            id >= self.view().len() ==> r is None,
    {
        if id < self.symbols.len() {
            Some(&self.symbols[id])
        } else {
            None
        }
    }

    /// Finds the id of the symbol named `name` declared exactly in `ns`.
    pub fn find_at(&self, ns: &Vec<String>, name: &String) -> (r: Option<usize>)
        ensures
            r matches Some(id) ==> self.declared_at(ns_of(ns@), name@, id as int),
            r is None ==> !self.has_at(ns_of(ns@), name@),
    {
        let mut i: usize = 0;
        while i < self.symbols.len()
            invariant
                i <= self.view().len(),
                forall|k: int| 0 <= k < i ==> !self.declared_at(ns_of(ns@), name@, k),
            decreases self.view().len() - i,
        {
            let s = &self.symbols[i];
            if s.name == *name && same_namespace(&s.namespace, ns) {
                return Some(i);
            }
            i += 1;
        }
        None
    }

    /// Adds a symbol and returns its id; refuses a second symbol with the
    /// same name in the same namespace.
    pub fn insert(&mut self, symbol: Symbol) -> (r: Option<usize>)
        requires
            old(self).wf(),
        ensures
            final(self).wf(),
            old(self).has_at(symbol.ns_view(), symbol.name_view()) ==> r is None
                && final(self).view() == old(self).view(),
            !old(self).has_at(symbol.ns_view(), symbol.name_view()) ==> r == Some(
                old(self).view().len() as usize,
            ) && final(self).view() == old(self).view().push(symbol),
    {
        match self.find_at(&symbol.namespace, &symbol.name) {
            Some(_) => None,
            None => {
                let id = self.symbols.len();
                self.symbols.push(symbol);
                proof {
                    assert forall|i: int, j: int|
                        0 <= i < j < self.view().len() implies !(#[trigger] self.view()[i].name_view()
                        == #[trigger] self.view()[j].name_view() && self.view()[i].ns_view()
                        == self.view()[j].ns_view()) by {
                        assert(self.view()[i] == old(self).view()[i]);
                        if j == id as int {
                            assert(!old(self).declared_at(
                                self.view()[j].ns_view(),
                                self.view()[j].name_view(),
                                i,
                            ));
                        }
                    }
                }
                Some(id)
            }
        }
    }

    /// Resolves `name` from the scope `ns`, trying each enclosing scope from
    /// the innermost to the outermost.
    pub fn resolve(&self, ns: &Vec<String>, name: &String) -> (r: Option<usize>)
        ensures
            self.resolves(ns_of(ns@), name@, r),
    {
        let mut scope: Vec<String> = ns.clone();
        proof { assert(ns_of(scope@) =~= ns_of(ns@)); }
        let mut d: usize = ns.len();
        loop
            invariant
                d <= ns@.len(),
                scope@.len() == d,
                ns_of(scope@) == ns_of(ns@).take(d as int),
                forall|e: int| d < e <= ns@.len() ==> !#[trigger] self.has_at(ns_of(ns@).take(e), name@),
            decreases d,
        {
            proof { assert(ns_of(ns@).take(d as int) =~= ns_of(ns@).take(d as int)); }
            match self.find_at(&scope, name) {
                Some(id) => {
                    return Some(id);
                },
                None => {
                    if d == 0 {
                        return None;
                    }
                    scope.pop();
                    d -= 1;
                    proof {
                        assert(ns_of(scope@) =~= ns_of(ns@).take(d as int));
                    }
                },
            }
        }
    }

    /// Resolving a live symbol's own name from its own scope finds that
    /// symbol again.
    pub proof fn lemma_resolve_own_name(&self, id: int, r: Option<usize>)
        requires
            self.wf(),
            0 <= id < self.view().len(),
            self.resolves(self.view()[id].ns_view(), self.view()[id].name_view(), r),
        ensures
            r == Some(id as usize),
    {
        let ns = self.view()[id].ns_view();
        let name = self.view()[id].name_view();
        assert(ns.take(ns.len() as int) =~= ns);
        assert(self.declared_at(ns.take(ns.len() as int), name, id));
        assert(self.has_at(ns.take(ns.len() as int), name));
        let found = r->Some_0 as int;
        let d = choose|d: int|
            0 <= d <= ns.len() && self.declared_at(ns.take(d), name, found)
                && forall|e: int| d < e <= ns.len() ==> !#[trigger] self.has_at(ns.take(e), name);
        assert(d == ns.len());
        if found < id {
            assert(self.view()[found].name_view() == self.view()[id].name_view());
        } else if id < found {
            assert(self.view()[found].name_view() == self.view()[id].name_view());
        }
    }
}

fn same_namespace(a: &Vec<String>, b: &Vec<String>) -> (r: bool)
    ensures
        r == (ns_of(a@) == ns_of(b@)),
{
    if a.len() != b.len() {
        proof {
            assert(ns_of(a@).len() != ns_of(b@).len());
        }
        return false;
    }
    let mut i: usize = 0;
    while i < a.len()
        invariant
            a@.len() == b@.len(),
            i <= a@.len(),
            forall|k: int| 0 <= k < i ==> a@[k]@ == b@[k]@,
        decreases a@.len() - i,
    {
        if a[i] != b[i] {
            proof {
                assert(ns_of(a@)[i as int] != ns_of(b@)[i as int]);
            }
            return false;
        }
        i += 1;
    }
    proof {
        assert(ns_of(a@) =~= ns_of(b@));
    }
    true
}

} // verus!
