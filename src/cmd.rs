use vstd::prelude::*;

verus! {

/// The tables that `dump` can print.
#[derive(Clone, Copy, Debug, PartialEq, Eq, Structural)]
pub enum DumpKind {
    SymbolTable,
    AssignList,
    NamespaceTable,
    TypeDag,
    AttributeTable,
    UnsafeTable,
}

/// Options of `dump`: the files to analyze and the tables to print.
#[derive(Debug)]
pub struct OptDump {
    pub files: Vec<String>,
    pub symbol_table: bool,
    pub assign_list: bool,
    pub namespace_table: bool,
    pub type_dag: bool,
    pub attribute_table: bool,
    pub unsafe_table: bool,
}

/// The tables requested by `opt`, in the order in which they are printed.
pub open spec fn requested_dumps(opt: &OptDump) -> Seq<DumpKind> {
    (if opt.symbol_table { seq![DumpKind::SymbolTable] } else { Seq::empty() })
        + (if opt.assign_list { seq![DumpKind::AssignList] } else { Seq::empty() })
        + (if opt.namespace_table { seq![DumpKind::NamespaceTable] } else { Seq::empty() })
        + (if opt.type_dag { seq![DumpKind::TypeDag] } else { Seq::empty() })
        + (if opt.attribute_table { seq![DumpKind::AttributeTable] } else { Seq::empty() })
        + (if opt.unsafe_table { seq![DumpKind::UnsafeTable] } else { Seq::empty() })
}

/// The `dump` command.
pub struct CmdDump {
    opt: OptDump,
}

impl CmdDump {
    pub closed spec fn opt_view(&self) -> &OptDump {
        &self.opt
    }

    pub fn new(opt: OptDump) -> (r: Self)
        ensures
            *r.opt_view() == opt,
    {
        CmdDump { opt }
    }

    pub fn opt(&self) -> (r: &OptDump)
        ensures
            *r == *self.opt_view(),
    {
        &self.opt
    }

    /// The tables to print once analysis is done, in order.
    pub fn dumps(&self) -> (r: Vec<DumpKind>)
        ensures
            r@ == requested_dumps(self.opt_view()),
    {
        let mut r: Vec<DumpKind> = Vec::new();
        if self.opt.symbol_table {
            r.push(DumpKind::SymbolTable);
        }
        if self.opt.assign_list {
            r.push(DumpKind::AssignList);
        }
        if self.opt.namespace_table {
            r.push(DumpKind::NamespaceTable);
        }
        if self.opt.type_dag {
            r.push(DumpKind::TypeDag);
        }
        if self.opt.attribute_table {
            r.push(DumpKind::AttributeTable);
        }
        if self.opt.unsafe_table {
            r.push(DumpKind::UnsafeTable);
        }
        proof {
            assert(r@ =~= requested_dumps(self.opt_view()));
        }
        r
    }
}

/// Options of `new`: the directory of the project to create.
#[derive(Debug)]
pub struct OptNew {
    pub path: String,
}

/// The `new` command.
pub struct CmdNew {
    opt: OptNew,
}

impl CmdNew {
    pub closed spec fn opt_view(&self) -> &OptNew {
        &self.opt
    }

    pub fn new(opt: OptNew) -> (r: Self)
        ensures
            *r.opt_view() == opt,
    {
        CmdNew { opt }
    }

    pub fn opt(&self) -> (r: &OptNew)
        ensures
            *r == *self.opt_view(),
    {
        &self.opt
    }
}

} // verus!
