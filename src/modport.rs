use vstd::prelude::*;
use vstd::arithmetic::div_mod::lemma_fundamental_div_mod_converse;
use crate::symbol::{Direction, SymbolKind, SymbolTable, Symbol};
use crate::text::{int_dec, push_int_dec};

verus! {

/// Number of index tuples of an array with the given dimension sizes; a size
/// that is not positive leaves no index.
pub open spec fn index_count(sizes: Seq<isize>) -> nat
    decreases sizes.len(),
{
    if sizes.len() == 0 {
        1
    } else {
        let s: nat = if sizes[0] > 0 { sizes[0] as nat } else { 0 };
        s * index_count(sizes.drop_first())
    }
}

/// The `k`-th index tuple in row-major order: the outermost dimension varies
/// slowest.
pub open spec fn index_at(sizes: Seq<isize>, k: int) -> Seq<isize>
    decreases sizes.len(),
{
    if sizes.len() == 0 {
        Seq::empty()
    } else {
        let p = index_count(sizes.drop_first()) as int;
        seq![(k / p) as isize] + index_at(sizes.drop_first(), k % p)
    }
}

/// All index tuples of the array, in row-major order.
pub open spec fn index_tuples(sizes: Seq<isize>) -> Seq<Seq<isize>> {
    Seq::new(index_count(sizes), |k: int| index_at(sizes, k))
}

proof fn lemma_count_positive(sizes: Seq<isize>)
    requires
        forall|i: int| 0 <= i < sizes.len() ==> sizes[i] > 0,
    ensures
        index_count(sizes) >= 1,
    decreases sizes.len(),
{
    if sizes.len() > 0 {
        lemma_count_positive(sizes.drop_first());
        let s = sizes[0] as nat;
        assert(s * index_count(sizes.drop_first()) >= 1) by (nonlinear_arith)
            requires s >= 1, index_count(sizes.drop_first()) >= 1;
    }
}

proof fn lemma_count_zero(sizes: Seq<isize>, z: int)
    requires
        0 <= z < sizes.len(),
        sizes[z] <= 0,
    ensures
        index_count(sizes) == 0,
    decreases sizes.len(),
{
    if z > 0 {
        lemma_count_zero(sizes.drop_first(), z - 1);
        assert(index_count(sizes) == 0) by (nonlinear_arith)
            requires index_count(sizes.drop_first()) == 0,
                index_count(sizes) == (if sizes[0] > 0 { sizes[0] as nat } else { 0nat }) * index_count(sizes.drop_first());
    }
}

proof fn lemma_count_suffix_bound(sizes: Seq<isize>, d: int)
    requires
        0 <= d <= sizes.len(),
        forall|i: int| 0 <= i < sizes.len() ==> sizes[i] > 0,
    ensures
        index_count(sizes.subrange(d, sizes.len() as int)) <= index_count(sizes),
    decreases d,
{
    if d > 0 {
        let t = sizes.drop_first();
        lemma_count_suffix_bound(t, d - 1);
        assert(t.subrange(d - 1, t.len() as int) =~= sizes.subrange(d, sizes.len() as int));
        lemma_count_positive(t);
        let s = sizes[0] as nat;
        assert(index_count(t) <= s * index_count(t)) by (nonlinear_arith)
            requires s >= 1;
    } else {
        assert(sizes.subrange(0, sizes.len() as int) =~= sizes);
    }
}

fn prepend_index(s: isize, t: &Vec<isize>) -> (r: Vec<isize>)
    ensures
        r@ == seq![s] + t@,
{
    let mut r: Vec<isize> = Vec::new();
    r.push(s);
    let mut i: usize = 0;
    while i < t.len()
        invariant
            i <= t@.len(),
            r@ == seq![s] + t@.take(i as int),
        decreases t@.len() - i,
    {
        r.push(t[i]);
        i += 1;
        proof {
            assert(r@ =~= seq![s] + t@.take(i as int));
        }
    }
    proof {
        assert(t@.take(t@.len() as int) =~= t@);
    }
    r
}

/// Enumerates every index tuple of an array whose dimensions have the given
/// sizes, outermost dimension first and varying slowest. With no dimension
/// there is one tuple, the empty one.
pub fn expand_array_index(array_size: &Vec<isize>) -> (r: Vec<Vec<isize>>)
    requires
        index_count(array_size@) <= usize::MAX,
    ensures
        r@.len() == index_count(array_size@),
        forall|k: int| 0 <= k < r@.len() ==> #[trigger] r@[k]@ == index_at(array_size@, k),
{
    let n = array_size.len();
    let mut z: usize = 0;
    while z < n
        invariant
            n == array_size@.len(),
            z <= n,
            forall|i: int| 0 <= i < z ==> array_size@[i] > 0,
        decreases n - z,
    {
        if array_size[z] <= 0 {
            proof {
                lemma_count_zero(array_size@, z as int);
            }
            return Vec::new();
        }
        z += 1;
    }
    let ghost sizes = array_size@;
    let mut acc: Vec<Vec<isize>> = Vec::new();
    acc.push(Vec::new());
    let mut d: usize = n;
    proof {
        assert(sizes.subrange(n as int, n as int) =~= Seq::<isize>::empty());
    }
    while d > 0
        invariant
            n == sizes.len(),
            sizes == array_size@,
            d <= n,
            forall|i: int| 0 <= i < n ==> sizes[i] > 0,
            index_count(sizes) <= usize::MAX,
            acc@.len() == index_count(sizes.subrange(d as int, n as int)),
            forall|k: int| 0 <= k < acc@.len() ==> #[trigger] acc@[k]@ == index_at(sizes.subrange(d as int, n as int), k),
        decreases d,
    {
        let ghost inner = sizes.subrange(d as int, n as int);
        let ghost outer = sizes.subrange(d - 1, n as int);
        proof {
            assert(outer.drop_first() =~= inner);
            lemma_count_positive(inner);
            lemma_count_suffix_bound(sizes, d - 1);
        }
        let size = array_size[d - 1];
        let p = acc.len();
        let ghost pi = p as int;
        let mut next: Vec<Vec<isize>> = Vec::new();
        let mut s: isize = 0;
        while s < size
            invariant
                0 <= s <= size,
                size == outer[0],
                size > 0,
                p == acc@.len(),
                pi == index_count(inner),
                pi == p as int,
                outer.len() >= 1,
                pi >= 1,
                size * pi <= usize::MAX,
                outer.drop_first() == inner,
                next@.len() == s * pi,
                forall|k: int| 0 <= k < acc@.len() ==> #[trigger] acc@[k]@ == index_at(inner, k),
                forall|m: int| 0 <= m < next@.len() ==> #[trigger] next@[m]@ == index_at(outer, m),
            decreases size - s,
        {
            let mut j: usize = 0;
            while j < p
                invariant
                    0 <= s < size,
                    size == outer[0],
                    p == acc@.len(),
                    pi == index_count(inner),
                    pi == p as int,
                    outer.len() >= 1,
                    pi >= 1,
                    size * pi <= usize::MAX,
                    outer.drop_first() == inner,
                    j <= p,
                    next@.len() == s * pi + j,
                    forall|k: int| 0 <= k < acc@.len() ==> #[trigger] acc@[k]@ == index_at(inner, k),
                    forall|m: int| 0 <= m < next@.len() ==> #[trigger] next@[m]@ == index_at(outer, m),
                decreases p - j,
            {
                proof {
                    assert(s * pi + j < size * pi) by (nonlinear_arith)
                        requires s < size, j < pi;
                }
                let t = prepend_index(s, &acc[j]);
                proof {
                    let m = s * pi + j;
                    lemma_fundamental_div_mod_converse(m, pi, s as int, j as int);
                    assert(index_count(outer.drop_first()) == pi);
                    assert(t@ =~= index_at(outer, m));
                }
                next.push(t);
                j += 1;
            }
            proof {
                assert((s + 1) * pi == s * pi + pi) by (nonlinear_arith);
            }
            s += 1;
        }
        proof {
            assert(index_count(outer) == size * pi);
        }
        acc = next;
        d -= 1;
    }
    proof {
        assert(sizes.subrange(0, n as int) =~= sizes);
    }
    acc
}

/// A member variable of a modport: its name, type and direction.
pub struct ModportMember {
    pub name: String,
    pub ty: String,
    pub direction: Direction,
}

impl ModportMember {
    pub open spec fn view(&self) -> (Seq<char>, Seq<char>, Direction) {
        (self.name@, self.ty@, self.direction)
    }
}

/// The member variables that the modport members `members` refer to, in
/// order; a member that is not a variable member of a live variable is left out.
pub open spec fn member_vars(t: Seq<Symbol>, members: Seq<usize>) -> Seq<(Seq<char>, Seq<char>, Direction)>
    decreases members.len(),
{
    if members.len() == 0 {
        Seq::empty()
    } else {
        let rest = member_vars(t, members.drop_last());
        let m = members.last() as int;
        if 0 <= m < t.len() {
            match t[m].kind {
                SymbolKind::ModportVariableMember { variable, direction } => {
                    if (variable as int) < t.len() {
                        match t[variable as int].kind {
                            SymbolKind::Variable { ty } => rest.push((t[variable as int].name@, ty@, direction)),
                            _ => rest,
                        }
                    } else {
                        rest
                    }
                },
                _ => rest,
            }
        } else {
            rest
        }
    }
}

/// The member variables of `modport`, or none when it is not a modport.
pub open spec fn modport_vars(t: Seq<Symbol>, modport: int) -> Seq<(Seq<char>, Seq<char>, Direction)> {
    if 0 <= modport < t.len() {
        match t[modport].kind {
            SymbolKind::Modport { members } => member_vars(t, members@),
            _ => Seq::empty(),
        }
    } else {
        Seq::empty()
    }
}

/// Collects the variables, with their types and directions, that a modport
/// gives access to.
pub fn collect_modport_member_variables(table: &SymbolTable, modport: usize) -> (r: Vec<ModportMember>)
    ensures
        r@.map_values(|m: ModportMember| m.view()) == modport_vars(table.view(), modport as int),
{
    let mut r: Vec<ModportMember> = Vec::new();
    let sym = match table.get(modport) {
        Some(s) => s,
        None => {
            proof { assert(r@.map_values(|m: ModportMember| m.view()) =~= Seq::empty()); }
            return r;
        },
    };
    let members = match &sym.kind {
        SymbolKind::Modport { members } => members,
        _ => {
            proof { assert(r@.map_values(|m: ModportMember| m.view()) =~= Seq::empty()); }
            return r;
        },
    };
    let mut i: usize = 0;
    proof {
        assert(members@.take(0) =~= Seq::<usize>::empty());
        assert(r@.map_values(|m: ModportMember| m.view()) =~= Seq::empty());
    }
    while i < members.len()
        invariant
            i <= members@.len(),
            r@.map_values(|m: ModportMember| m.view()) == member_vars(table.view(), members@.take(i as int)),
        decreases members@.len() - i,
    {
        let m = members[i];
        proof {
            assert(members@.take(i + 1).drop_last() =~= members@.take(i as int));
        }
        if let Some(ms) = table.get(m) {
            if let SymbolKind::ModportVariableMember { variable, direction } = &ms.kind {
                if let Some(vs) = table.get(*variable) {
                    if let SymbolKind::Variable { ty } = &vs.kind {
                        let ghost before = r@;
                        r.push(ModportMember { name: vs.name.clone(), ty: ty.clone(), direction: *direction });
                        proof {
                            assert(r@.map_values(|m: ModportMember| m.view()) =~= before.map_values(|m: ModportMember| m.view()).push((vs.name@, ty@, *direction)));
                        }
                    }
                }
            }
        }
        i += 1;
    }
    proof {
        assert(members@.take(members@.len() as int) =~= members@);
    }
    r
}

/// `i0_i1_..._` for the index tuple `[i0, i1, ...]`; empty for no index.
pub open spec fn index_suffix(idx: Seq<isize>) -> Seq<char>
    decreases idx.len(),
{
    if idx.len() == 0 {
        Seq::empty()
    } else {
        index_suffix(idx.drop_last()) + int_dec(idx.last() as int) + seq!['_']
    }
}

/// `[i0][i1]...` for the index tuple `[i0, i1, ...]`; empty for no index.
pub open spec fn index_select(idx: Seq<isize>) -> Seq<char>
    decreases idx.len(),
{
    if idx.len() == 0 {
        Seq::empty()
    } else {
        index_select(idx.drop_last()) + seq!['['] + int_dec(idx.last() as int) + seq![']']
    }
}

/// The flat signal name `__<port>_<i0>_..._<var>` of one member of an
/// expanded modport port.
pub open spec fn port_target(port: Seq<char>, idx: Seq<isize>, var: Seq<char>) -> Seq<char> {
    seq!['_', '_'] + port + seq!['_'] + index_suffix(idx) + var
}

/// The interface signal `<iface>[<i0>]....<var>` of one member.
pub open spec fn interface_target(iface: Seq<char>, idx: Seq<isize>, var: Seq<char>) -> Seq<char> {
    iface + index_select(idx) + seq!['.'] + var
}

fn push_index_suffix(s: &mut String, idx: &Vec<isize>)
    ensures
        final(s)@ == old(s)@ + index_suffix(idx@),
{
    let mut i: usize = 0;
    proof {
        assert(idx@.take(0) =~= Seq::<isize>::empty());
        assert(s@ =~= old(s)@ + index_suffix(idx@.take(0)));
    }
    while i < idx.len()
        invariant
            i <= idx@.len(),
            s@ == old(s)@ + index_suffix(idx@.take(i as int)),
        decreases idx@.len() - i,
    {
        proof {
            assert(idx@.take(i + 1).drop_last() =~= idx@.take(i as int));
            reveal_strlit("_");
        }
        push_int_dec(s, idx[i]);
        s.append("_");
        i += 1;
        proof {
            assert(s@ =~= old(s)@ + index_suffix(idx@.take(i as int)));
        }
    }
    proof {
        assert(idx@.take(idx@.len() as int) =~= idx@);
    }
}

fn push_index_select(s: &mut String, idx: &Vec<isize>)
    ensures
        final(s)@ == old(s)@ + index_select(idx@),
{
    let mut i: usize = 0;
    proof {
        assert(idx@.take(0) =~= Seq::<isize>::empty());
        assert(s@ =~= old(s)@ + index_select(idx@.take(0)));
    }
    while i < idx.len()
        invariant
            i <= idx@.len(),
            s@ == old(s)@ + index_select(idx@.take(i as int)),
        decreases idx@.len() - i,
    {
        proof {
            assert(idx@.take(i + 1).drop_last() =~= idx@.take(i as int));
            reveal_strlit("[");
            reveal_strlit("]");
        }
        s.append("[");
        push_int_dec(s, idx[i]);
        s.append("]");
        i += 1;
        proof {
            assert(s@ =~= old(s)@ + index_select(idx@.take(i as int)));
        }
    }
    proof {
        assert(idx@.take(idx@.len() as int) =~= idx@);
    }
}

fn make_port_target(port: &String, idx: &Vec<isize>, var: &String) -> (r: String)
    ensures
        r@ == port_target(port@, idx@, var@),
{
    proof {
        reveal_strlit("__");
        reveal_strlit("_");
    }
    let mut s = String::from_str("__");
    s.append(port.as_str());
    s.append("_");
    push_index_suffix(&mut s, idx);
    s.append(var.as_str());
    proof {
        assert(s@ =~= port_target(port@, idx@, var@));
    }
    s
}

fn make_interface_target(iface: &String, idx: &Vec<isize>, var: &String) -> (r: String)
    ensures
        r@ == interface_target(iface@, idx@, var@),
{
    proof {
        reveal_strlit(".");
    }
    let mut s = iface.clone();
    push_index_select(&mut s, idx);
    s.append(".");
    s.append(var.as_str());
    proof {
        assert(s@ =~= interface_target(iface@, idx@, var@));
    }
    s
}

/// One flat connection: the mangled port-side signal and the interface
/// signal it is wired to.
pub struct ExpandModportConnection {
    pub port_target: String,
    pub interface_target: String,
}

impl ExpandModportConnection {
    pub open spec fn view(&self) -> (Seq<char>, Seq<char>) {
        (self.port_target@, self.interface_target@)
    }
}

/// The connections of one array element of an expanded modport port.
pub struct ExpandModportConnections {
    pub connections: Vec<ExpandModportConnection>,
}

/// The connections of one array element: one per member variable.
pub open spec fn connections_of(
    port: Seq<char>,
    members: Seq<(Seq<char>, Seq<char>, Direction)>,
    iface: Seq<char>,
    idx: Seq<isize>,
) -> Seq<(Seq<char>, Seq<char>)> {
    members.map_values(|m: (Seq<char>, Seq<char>, Direction)| (port_target(port, idx, m.0), interface_target(iface, idx, m.0)))
}

impl ExpandModportConnections {
    pub open spec fn view(&self) -> Seq<(Seq<char>, Seq<char>)> {
        self.connections@.map_values(|c: ExpandModportConnection| c.view())
    }

    pub fn new(port: &String, members: &Vec<ModportMember>, interface_name: &String, array_index: &Vec<isize>) -> (r: Self)
        ensures
            r.view() == connections_of(port@, members@.map_values(|m: ModportMember| m.view()), interface_name@, array_index@),
    {
        let mut connections: Vec<ExpandModportConnection> = Vec::new();
        let mut i: usize = 0;
        while i < members.len()
            invariant
                i <= members@.len(),
                connections@.map_values(|c: ExpandModportConnection| c.view()) == connections_of(port@, members@.map_values(|m: ModportMember| m.view()), interface_name@, array_index@).take(i as int),
            decreases members@.len() - i,
        {
            let var = &members[i].name;
            let c = ExpandModportConnection {
                port_target: make_port_target(port, array_index, var),
                interface_target: make_interface_target(interface_name, array_index, var),
            };
            let ghost cv = c.view();
            let ghost before = connections@;
            connections.push(c);
            proof {
                let mv = members@.map_values(|m: ModportMember| m.view());
                assert(mv[i as int].0 == var@);
                assert(cv == connections_of(port@, mv, interface_name@, array_index@)[i as int]);
                assert(connections@.map_values(|c: ExpandModportConnection| c.view()) =~= before.map_values(|c: ExpandModportConnection| c.view()).push(cv));
            }
            i += 1;
            proof {
                assert(connections@.map_values(|c: ExpandModportConnection| c.view()) =~= connections_of(port@, members@.map_values(|m: ModportMember| m.view()), interface_name@, array_index@).take(i as int));
            }
        }
        proof {
            assert(connections@.map_values(|c: ExpandModportConnection| c.view()) =~= connections_of(port@, members@.map_values(|m: ModportMember| m.view()), interface_name@, array_index@));
        }
        ExpandModportConnections { connections }
    }
}

/// A port of a module definition whose type traces to `modport` (a symbol
/// id), with its evaluated array sizes, whether it carries the
/// `expand(modport)` attribute, and the name of its interface as emitted.
pub struct DefinedPort {
    pub name: String,
    pub modport: Option<usize>,
    pub expand: bool,
    pub array_size: Vec<isize>,
    pub interface: String,
}

/// A port connection at an instantiation site: `name` or `name: target`.
pub struct InstPortItem {
    pub name: String,
    pub target: Option<String>,
}

/// The port is an expandable modport port.
pub open spec fn is_expanded(t: Seq<Symbol>, p: DefinedPort) -> bool {
    &&& p.expand
    &&& p.modport matches Some(m)
    &&& (m as int) < t.len()
    &&& t[m as int].kind is Modport
}

/// The interface connected to `port` at the instantiation site: the target
/// of the first connection of that name, or the port's own name when it is
/// connected without a target.
pub open spec fn connected_interface(conns: Seq<InstPortItem>, port: Seq<char>) -> Option<Seq<char>>
    decreases conns.len(),
{
    if conns.len() == 0 {
        None
    } else if conns[0].name@ == port {
        match conns[0].target {
            Some(x) => Some(x@),
            None => Some(port),
        }
    } else {
        connected_interface(conns.drop_first(), port)
    }
}

/// The connections of an expanded port, one group per array element in
/// row-major order.
pub open spec fn port_connections(t: Seq<Symbol>, p: DefinedPort, iface: Seq<char>) -> Seq<Seq<(Seq<char>, Seq<char>)>> {
    index_tuples(p.array_size@).map_values(
        |idx: Seq<isize>| connections_of(p.name@, modport_vars(t, p.modport->Some_0 as int), iface, idx),
    )
}

/// The entries of the connection table for `ports`, in port order.
pub open spec fn connection_entries(t: Seq<Symbol>, ports: Seq<DefinedPort>, conns: Seq<InstPortItem>) -> Seq<(Seq<char>, Seq<Seq<(Seq<char>, Seq<char>)>>)>
    decreases ports.len(),
{
    if ports.len() == 0 {
        Seq::empty()
    } else {
        let rest = connection_entries(t, ports.drop_last(), conns);
        let p = ports.last();
        if is_expanded(t, p) {
            rest.push((p.name@, port_connections(t, p, connected_interface(conns, p.name@)->Some_0)))
        } else {
            rest
        }
    }
}

/// Every expandable port is connected and its index tuples can be counted.
pub open spec fn ports_expandable(t: Seq<Symbol>, ports: Seq<DefinedPort>, conns: Seq<InstPortItem>) -> bool {
    forall|i: int| 0 <= i < ports.len() && is_expanded(t, #[trigger] ports[i]) ==> {
        &&& connected_interface(conns, ports[i].name@) is Some
        &&& index_count(ports[i].array_size@) <= usize::MAX
    }
}

fn find_connected_interface(conns: &Vec<InstPortItem>, port: &String) -> (r: Option<String>)
    ensures
        r matches Some(x) ==> connected_interface(conns@, port@) == Some(x@),
        r is None ==> connected_interface(conns@, port@) is None,
{
    let mut i: usize = 0;
    proof {
        assert(conns@.subrange(0, conns@.len() as int) =~= conns@);
    }
    while i < conns.len()
        invariant
            i <= conns@.len(),
            connected_interface(conns@, port@) == connected_interface(conns@.subrange(i as int, conns@.len() as int), port@),
        decreases conns@.len() - i,
    {
        proof {
            assert(conns@.subrange(i as int, conns@.len() as int).drop_first() =~= conns@.subrange(i + 1, conns@.len() as int));
        }
        if conns[i].name == *port {
            return match &conns[i].target {
                Some(x) => Some(x.clone()),
                None => Some(port.clone()),
            };
        }
        i += 1;
    }
    None
}

/// One port's entry in the connection table.
pub struct ExpandModportConnectionsTableEntry {
    id: String,
    pub connections: Vec<ExpandModportConnections>,
}

impl ExpandModportConnectionsTableEntry {
    pub closed spec fn id_view(&self) -> Seq<char> {
        self.id@
    }

    /// The name of the port that this entry expands.
    pub fn id(&self) -> (r: &String)
        ensures
            r@ == self.id_view(),
    {
        &self.id
    }

    pub closed spec fn view(&self) -> (Seq<char>, Seq<Seq<(Seq<char>, Seq<char>)>>) {
        (self.id_view(), self.connections@.map_values(|c: ExpandModportConnections| c.view()))
    }
}

/// Connections of the expanded modport ports at one instantiation site, keyed
/// by port name.
pub struct ExpandModportConnectionsTable {
    entries: Vec<ExpandModportConnectionsTableEntry>,
}

impl ExpandModportConnectionsTable {
    pub closed spec fn view(&self) -> Seq<(Seq<char>, Seq<Seq<(Seq<char>, Seq<char>)>>)> {
        self.entries@.map_values(|e: ExpandModportConnectionsTableEntry| e.view())
    }

    pub fn new() -> (r: Self)
        ensures
            r.view() == Seq::<(Seq<char>, Seq<Seq<(Seq<char>, Seq<char>)>>)>::empty(),
    {
        let r = ExpandModportConnectionsTable { entries: Vec::new() };
        proof {
            assert(r.view() =~= Seq::empty());
        }
        r
    }

    /// Builds the table for the ports of a module definition connected by
    /// `connected_ports`.
    pub fn create(table: &SymbolTable, defined_ports: &Vec<DefinedPort>, connected_ports: &Vec<InstPortItem>) -> (r: Self)
        requires
            ports_expandable(table.view(), defined_ports@, connected_ports@),
        ensures
            r.view() == connection_entries(table.view(), defined_ports@, connected_ports@),
    {
        let mut ret = ExpandModportConnectionsTable::new();
        ret.expand(table, defined_ports, connected_ports);
        proof {
            assert(Seq::<(Seq<char>, Seq<Seq<(Seq<char>, Seq<char>)>>)>::empty() + connection_entries(table.view(), defined_ports@, connected_ports@) =~= connection_entries(table.view(), defined_ports@, connected_ports@));
        }
        ret
    }

    fn expand(&mut self, table: &SymbolTable, defined_ports: &Vec<DefinedPort>, connected_ports: &Vec<InstPortItem>)
        requires
            ports_expandable(table.view(), defined_ports@, connected_ports@),
        ensures
            final(self).view() == old(self).view() + connection_entries(table.view(), defined_ports@, connected_ports@),
    {
        let mut i: usize = 0;
        proof {
            assert(defined_ports@.take(0) =~= Seq::<DefinedPort>::empty());
            assert(self.view() =~= old(self).view() + connection_entries(table.view(), defined_ports@.take(0), connected_ports@));
        }
        while i < defined_ports.len()
            invariant
                i <= defined_ports@.len(),
                ports_expandable(table.view(), defined_ports@, connected_ports@),
                self.view() == old(self).view() + connection_entries(table.view(), defined_ports@.take(i as int), connected_ports@),
            decreases defined_ports@.len() - i,
        {
            let port = &defined_ports[i];
            proof {
                assert(defined_ports@.take(i + 1).drop_last() =~= defined_ports@.take(i as int));
                assert(defined_ports@.take(i + 1).last() == defined_ports@[i as int]);
            }
            let m = match port.modport {
                Some(m) => m,
                None => {
                    i += 1;
                    continue;
                },
            };
            let is_modport = match table.get(m) {
                Some(sym) => match &sym.kind {
                    SymbolKind::Modport { .. } => true,
                    _ => false,
                },
                None => false,
            };
            if !port.expand || !is_modport {
                i += 1;
                continue;
            }
            proof {
                assert(is_expanded(table.view(), defined_ports@[i as int]));
            }
            let iface = match find_connected_interface(connected_ports, &port.name) {
                Some(x) => x,
                None => {
                    i += 1;
                    continue;
                },
            };
            let members = collect_modport_member_variables(table, m);
            let indices = expand_array_index(&port.array_size);
            let mut connections: Vec<ExpandModportConnections> = Vec::new();
            let ghost want = port_connections(table.view(), *port, iface@);
            let mut k: usize = 0;
            while k < indices.len()
                invariant
                    k <= indices@.len(),
                    indices@.len() == index_count(port.array_size@),
                    forall|j: int| 0 <= j < indices@.len() ==> #[trigger] indices@[j]@ == index_at(port.array_size@, j),
                    members@.map_values(|m: ModportMember| m.view()) == modport_vars(table.view(), m as int),
                    port.modport == Some(m),
                    want == port_connections(table.view(), *port, iface@),
                    connections@.map_values(|c: ExpandModportConnections| c.view()) == want.take(k as int),
                decreases indices@.len() - k,
            {
                let c = ExpandModportConnections::new(&port.name, &members, &iface, &indices[k]);
                let ghost before = connections@;
                proof {
                    assert(index_tuples(port.array_size@)[k as int] == indices@[k as int]@);
                    assert(c.view() == want[k as int]);
                }
                let ghost cv = c.view();
                connections.push(c);
                k += 1;
                proof {
                    assert(connections@.map_values(|c: ExpandModportConnections| c.view()) =~= before.map_values(|c: ExpandModportConnections| c.view()).push(cv));
                    assert(connections@.map_values(|c: ExpandModportConnections| c.view()) =~= want.take(k as int));
                }
            }
            proof {
                assert(want.take(k as int) =~= want);
            }
            let ghost before = self.view();
            self.entries.push(ExpandModportConnectionsTableEntry { id: port.name.clone(), connections });
            proof {
                assert(self.view() =~= before.push((port.name@, want)));
            }
            i += 1;
        }
        proof {
            assert(defined_ports@.take(defined_ports@.len() as int) =~= defined_ports@);
        }
    }

    /// Takes out the entry of the port named `name`, so that the port is
    /// expanded once per instantiation site.
    pub fn remove(&mut self, name: &String) -> (r: Option<ExpandModportConnectionsTableEntry>)
        ensures
            r matches Some(e) ==> exists|k: int|
                0 <= k < old(self).view().len() && old(self).view()[k].0 == name@
                    && (forall|j: int| 0 <= j < k ==> #[trigger] old(self).view()[j].0 != name@)
                    && e.view() == old(self).view()[k]
                    && final(self).view() == old(self).view().remove(k),
            r is None ==> (forall|j: int| 0 <= j < old(self).view().len() ==> #[trigger] old(self).view()[j].0 != name@)
                && final(self).view() == old(self).view(),
    {
        let mut i: usize = 0;
        while i < self.entries.len()
            invariant
                self.view() == old(self).view(),
                self.entries@.len() == self.view().len(),
                i <= self.view().len(),
                forall|j: int| 0 <= j < i ==> #[trigger] self.view()[j].0 != name@,
            decreases self.view().len() - i,
        {
            if self.entries[i].id == *name {
                let e = self.entries.remove(i);
                proof {
                    assert(self.view() =~= old(self).view().remove(i as int));
                }
                return Some(e);
            }
            i += 1;
        }
        None
    }

    pub fn is_empty(&self) -> (r: bool)
        ensures
            r == (self.view().len() == 0),
    {
        self.entries.len() == 0
    }
}

/// Expanding a modport port gives one group of connections per index tuple
/// of the array, each with one connection per member variable: in all, the
/// product of the array sizes times the number of members.
pub proof fn lemma_expansion_count(t: Seq<Symbol>, p: DefinedPort, iface: Seq<char>)
    ensures
        port_connections(t, p, iface).len() == index_count(p.array_size@),
        forall|g: int| 0 <= g < port_connections(t, p, iface).len()
            ==> #[trigger] port_connections(t, p, iface)[g].len() == modport_vars(t, p.modport->Some_0 as int).len(),
{
}

/// A port that is not an array expands into a single group whose names carry
/// no index: `__<port>_<var>` wired to `<iface>.<var>`.
pub proof fn lemma_scalar_expansion(t: Seq<Symbol>, p: DefinedPort, iface: Seq<char>)
    requires
        p.array_size@.len() == 0,
    ensures
        port_connections(t, p, iface).len() == 1,
        port_connections(t, p, iface)[0] == modport_vars(t, p.modport->Some_0 as int).map_values(
            |m: (Seq<char>, Seq<char>, Direction)| (seq!['_', '_'] + p.name@ + seq!['_'] + m.0, iface + seq!['.'] + m.0),
        ),
{
    assert(index_at(p.array_size@, 0) =~= Seq::<isize>::empty());
    let vars = modport_vars(t, p.modport->Some_0 as int);
    assert(port_connections(t, p, iface)[0] =~= vars.map_values(
        |m: (Seq<char>, Seq<char>, Direction)| (seq!['_', '_'] + p.name@ + seq!['_'] + m.0, iface + seq!['.'] + m.0),
    )) by {
        assert forall|i: int| 0 <= i < vars.len() implies (seq!['_', '_'] + p.name@ + seq!['_'] + index_suffix(Seq::<isize>::empty()) + vars[i].0) =~= (seq!['_', '_'] + p.name@ + seq!['_'] + vars[i].0) && (iface + index_select(Seq::<isize>::empty()) + seq!['.'] + vars[i].0) =~= (iface + seq!['.'] + vars[i].0) by {}
    }
}

/// One port declaration that replaces a member of an expanded modport port.
pub struct ExpandedModportPort {
    pub identifier: String,
    pub ty: String,
    pub interface_target: String,
    pub direction: Direction,
    pub direction_token: String,
}

/// Name, type, interface signal, direction, and direction keyword of an
/// expanded port.
pub type ExpandedPortView = (Seq<char>, Seq<char>, Seq<char>, Direction, Seq<char>);

impl ExpandedModportPort {
    pub open spec fn view(&self) -> ExpandedPortView {
        (self.identifier@, self.ty@, self.interface_target@, self.direction, self.direction_token@)
    }
}

/// The keyword of a member's direction in the expanded declaration.
pub open spec fn direction_keyword(d: Direction) -> Seq<char> {
    if d == Direction::Input { "input"@ } else { "output"@ }
}

/// The expanded declarations of one array element: one per member variable.
pub open spec fn ports_of(port: Seq<char>, members: Seq<(Seq<char>, Seq<char>, Direction)>, idx: Seq<isize>) -> Seq<ExpandedPortView> {
    members.map_values(
        |m: (Seq<char>, Seq<char>, Direction)| (port_target(port, idx, m.0), m.1, interface_target(port, idx, m.0), m.2, direction_keyword(m.2)),
    )
}

/// The port declarations of one array element of an expanded modport port.
pub struct ExpandedModportPorts {
    pub ports: Vec<ExpandedModportPort>,
}

impl ExpandedModportPorts {
    pub open spec fn view(&self) -> Seq<ExpandedPortView> {
        self.ports@.map_values(|p: ExpandedModportPort| p.view())
    }

    pub fn new(port: &String, members: &Vec<ModportMember>, array_index: &Vec<isize>) -> (r: Self)
        ensures
            r.view() == ports_of(port@, members@.map_values(|m: ModportMember| m.view()), array_index@),
    {
        let ghost want = ports_of(port@, members@.map_values(|m: ModportMember| m.view()), array_index@);
        let mut ports: Vec<ExpandedModportPort> = Vec::new();
        let mut i: usize = 0;
        while i < members.len()
            invariant
                i <= members@.len(),
                want == ports_of(port@, members@.map_values(|m: ModportMember| m.view()), array_index@),
                ports@.map_values(|p: ExpandedModportPort| p.view()) == want.take(i as int),
            decreases members@.len() - i,
        {
            let m = &members[i];
            let direction_token = match m.direction {
                Direction::Input => String::from_str("input"),
                _ => String::from_str("output"),
            };
            let p = ExpandedModportPort {
                identifier: make_port_target(port, array_index, &m.name),
                ty: m.ty.clone(),
                interface_target: make_interface_target(port, array_index, &m.name),
                direction: m.direction,
                direction_token,
            };
            let ghost pv = p.view();
            let ghost before = ports@;
            proof {
                let mv = members@.map_values(|m: ModportMember| m.view());
                assert(mv[i as int] == m.view());
                assert(pv == want[i as int]);
            }
            ports.push(p);
            i += 1;
            proof {
                assert(ports@.map_values(|p: ExpandedModportPort| p.view()) =~= before.map_values(|p: ExpandedModportPort| p.view()).push(pv));
                assert(ports@.map_values(|p: ExpandedModportPort| p.view()) =~= want.take(i as int));
            }
        }
        proof {
            assert(want.take(i as int) =~= want);
        }
        ExpandedModportPorts { ports }
    }
}

/// The expanded declarations of a port, one group per array element in
/// row-major order.
pub open spec fn port_declarations(t: Seq<Symbol>, p: DefinedPort) -> Seq<Seq<ExpandedPortView>> {
    index_tuples(p.array_size@).map_values(
        |idx: Seq<isize>| ports_of(p.name@, modport_vars(t, p.modport->Some_0 as int), idx),
    )
}

/// Port name, interface name, array sizes and declaration groups of an
/// entry of the port table.
pub type PortEntryView = (Seq<char>, Seq<char>, Seq<isize>, Seq<Seq<ExpandedPortView>>);

/// The entries of the port table for `ports`, in port order.
pub open spec fn port_entries(t: Seq<Symbol>, ports: Seq<DefinedPort>) -> Seq<PortEntryView>
    decreases ports.len(),
{
    if ports.len() == 0 {
        Seq::empty()
    } else {
        let rest = port_entries(t, ports.drop_last());
        let p = ports.last();
        if is_expanded(t, p) {
            rest.push((p.name@, p.interface@, p.array_size@, port_declarations(t, p)))
        } else {
            rest
        }
    }
}

/// One port's entry in the port table.
pub struct ExpandedModportPortTableEntry {
    id: String,
    pub identifier: String,
    pub interface_name: String,
    pub array_size: Vec<isize>,
    pub ports: Vec<ExpandedModportPorts>,
}

impl ExpandedModportPortTableEntry {
    pub closed spec fn view(&self) -> PortEntryView {
        (self.id@, self.interface_name@, self.array_size@, self.ports@.map_values(|p: ExpandedModportPorts| p.view()))
    }

    pub closed spec fn identifier_view(&self) -> Seq<char> {
        self.identifier@
    }
}

/// The port declarations that replace the expanded modport ports of a
/// module definition, keyed by port name.
pub struct ExpandedModportPortTable {
    entries: Vec<ExpandedModportPortTableEntry>,
}

impl ExpandedModportPortTable {
    pub closed spec fn view(&self) -> Seq<PortEntryView> {
        self.entries@.map_values(|e: ExpandedModportPortTableEntry| e.view())
    }

    pub fn new() -> (r: Self)
        ensures
            r.view() == Seq::<PortEntryView>::empty(),
    {
        let r = ExpandedModportPortTable { entries: Vec::new() };
        proof {
            assert(r.view() =~= Seq::empty());
        }
        r
    }

    /// Builds the table for the ports of a module definition.
    pub fn create(table: &SymbolTable, defined_ports: &Vec<DefinedPort>) -> (r: Self)
        requires
            forall|i: int| 0 <= i < defined_ports@.len() && is_expanded(table.view(), #[trigger] defined_ports@[i])
                ==> index_count(defined_ports@[i].array_size@) <= usize::MAX,
        ensures
            r.view() == port_entries(table.view(), defined_ports@),
    {
        let mut ret = ExpandedModportPortTable::new();
        ret.expand(table, defined_ports);
        proof {
            assert(Seq::<PortEntryView>::empty() + port_entries(table.view(), defined_ports@) =~= port_entries(table.view(), defined_ports@));
        }
        ret
    }

    fn expand(&mut self, table: &SymbolTable, defined_ports: &Vec<DefinedPort>)
        requires
            forall|i: int| 0 <= i < defined_ports@.len() && is_expanded(table.view(), #[trigger] defined_ports@[i])
                ==> index_count(defined_ports@[i].array_size@) <= usize::MAX,
        ensures
            final(self).view() == old(self).view() + port_entries(table.view(), defined_ports@),
    {
        let mut i: usize = 0;
        proof {
            assert(defined_ports@.take(0) =~= Seq::<DefinedPort>::empty());
            assert(self.view() =~= old(self).view() + port_entries(table.view(), defined_ports@.take(0)));
        }
        while i < defined_ports.len()
            invariant
                i <= defined_ports@.len(),
                forall|i: int| 0 <= i < defined_ports@.len() && is_expanded(table.view(), #[trigger] defined_ports@[i])
                    ==> index_count(defined_ports@[i].array_size@) <= usize::MAX,
                self.view() == old(self).view() + port_entries(table.view(), defined_ports@.take(i as int)),
            decreases defined_ports@.len() - i,
        {
            let port = &defined_ports[i];
            proof {
                assert(defined_ports@.take(i + 1).drop_last() =~= defined_ports@.take(i as int));
                assert(defined_ports@.take(i + 1).last() == defined_ports@[i as int]);
            }
            let m = match port.modport {
                Some(m) => m,
                None => {
                    i += 1;
                    continue;
                },
            };
            let is_modport = match table.get(m) {
                Some(sym) => match &sym.kind {
                    SymbolKind::Modport { .. } => true,
                    _ => false,
                },
                None => false,
            };
            if !port.expand || !is_modport {
                i += 1;
                continue;
            }
            let members = collect_modport_member_variables(table, m);
            let indices = expand_array_index(&port.array_size);
            let mut groups: Vec<ExpandedModportPorts> = Vec::new();
            let ghost want = port_declarations(table.view(), *port);
            let mut k: usize = 0;
            while k < indices.len()
                invariant
                    k <= indices@.len(),
                    indices@.len() == index_count(port.array_size@),
                    forall|j: int| 0 <= j < indices@.len() ==> #[trigger] indices@[j]@ == index_at(port.array_size@, j),
                    members@.map_values(|m: ModportMember| m.view()) == modport_vars(table.view(), m as int),
                    port.modport == Some(m),
                    want == port_declarations(table.view(), *port),
                    groups@.map_values(|c: ExpandedModportPorts| c.view()) == want.take(k as int),
                decreases indices@.len() - k,
            {
                let g = ExpandedModportPorts::new(&port.name, &members, &indices[k]);
                let ghost before = groups@;
                proof {
                    assert(index_tuples(port.array_size@)[k as int] == indices@[k as int]@);
                    assert(g.view() == want[k as int]);
                }
                let ghost gv = g.view();
                groups.push(g);
                k += 1;
                proof {
                    assert(groups@.map_values(|c: ExpandedModportPorts| c.view()) =~= before.map_values(|c: ExpandedModportPorts| c.view()).push(gv));
                    assert(groups@.map_values(|c: ExpandedModportPorts| c.view()) =~= want.take(k as int));
                }
            }
            proof {
                assert(want.take(k as int) =~= want);
            }
            let ghost before = self.view();
            let array_size = port.array_size.clone();
            self.entries.push(ExpandedModportPortTableEntry {
                id: port.name.clone(),
                identifier: port.name.clone(),
                interface_name: port.interface.clone(),
                array_size,
                ports: groups,
            });
            proof {
                assert(self.view() =~= before.push((port.name@, port.interface@, port.array_size@, want)));
            }
            i += 1;
        }
        proof {
            assert(defined_ports@.take(defined_ports@.len() as int) =~= defined_ports@);
        }
    }

    /// The entry of the port named `name`, if it was expanded.
    pub fn get(&self, name: &String) -> (r: Option<&ExpandedModportPortTableEntry>)
        ensures
            r matches Some(e) ==> exists|k: int|
                0 <= k < self.view().len() && self.view()[k].0 == name@
                    && (forall|j: int| 0 <= j < k ==> #[trigger] self.view()[j].0 != name@)
                    && e.view() == self.view()[k],
            r is None ==> forall|j: int| 0 <= j < self.view().len() ==> #[trigger] self.view()[j].0 != name@,
    {
        let mut i: usize = 0;
        while i < self.entries.len()
            invariant
                self.entries@.len() == self.view().len(),
                i <= self.view().len(),
                forall|j: int| 0 <= j < i ==> #[trigger] self.view()[j].0 != name@,
            decreases self.view().len() - i,
        {
            if self.entries[i].id == *name {
                proof {
                    assert(self.view()[i as int] == self.entries@[i as int].view());
                }
                return Some(&self.entries[i]);
            }
            i += 1;
        }
        None
    }

    /// Takes out every entry, in order.
    pub fn drain(&mut self) -> (r: Vec<ExpandedModportPortTableEntry>)
        ensures
            r@.map_values(|e: ExpandedModportPortTableEntry| e.view()) == old(self).view(),
            final(self).view().len() == 0,
    {
        let mut r: Vec<ExpandedModportPortTableEntry> = Vec::new();
        std::mem::swap(&mut r, &mut self.entries);
        proof {
            assert(self.view() =~= Seq::<PortEntryView>::empty());
        }
        r
    }

    pub fn is_empty(&self) -> (r: bool)
        ensures
            r == (self.view().len() == 0),
    {
        self.entries.len() == 0
    }
}

/// Expanding a modport port into declarations gives one group per index
/// tuple of the array, each with one declaration per member variable: in
/// all, the product of the array sizes times the number of members.
pub proof fn lemma_declaration_count(t: Seq<Symbol>, p: DefinedPort)
    ensures
        port_declarations(t, p).len() == index_count(p.array_size@),
        forall|g: int| 0 <= g < port_declarations(t, p).len()
            ==> #[trigger] port_declarations(t, p)[g].len() == modport_vars(t, p.modport->Some_0 as int).len(),
{
}

/// A port that is not an array expands into a single group of declarations
/// whose names carry no index: `__<port>_<var>`, standing for `<port>.<var>`.
pub proof fn lemma_scalar_declarations(t: Seq<Symbol>, p: DefinedPort)
    requires
        p.array_size@.len() == 0,
    ensures
        port_declarations(t, p).len() == 1,
        port_declarations(t, p)[0] == modport_vars(t, p.modport->Some_0 as int).map_values(
            |m: (Seq<char>, Seq<char>, Direction)| (
                seq!['_', '_'] + p.name@ + seq!['_'] + m.0,
                m.1,
                p.name@ + seq!['.'] + m.0,
                m.2,
                direction_keyword(m.2),
            ),
        ),
{
    assert(index_at(p.array_size@, 0) =~= Seq::<isize>::empty());
    let vars = modport_vars(t, p.modport->Some_0 as int);
    assert forall|i: int| 0 <= i < vars.len() implies (seq!['_', '_'] + p.name@ + seq!['_'] + index_suffix(Seq::<isize>::empty()) + vars[i].0) =~= (seq!['_', '_'] + p.name@ + seq!['_'] + vars[i].0) && (p.name@ + index_select(Seq::<isize>::empty()) + seq!['.'] + vars[i].0) =~= (p.name@ + seq!['.'] + vars[i].0) by {}
    assert(port_declarations(t, p)[0] =~= vars.map_values(
        |m: (Seq<char>, Seq<char>, Direction)| (
            seq!['_', '_'] + p.name@ + seq!['_'] + m.0,
            m.1,
            p.name@ + seq!['.'] + m.0,
            m.2,
            direction_keyword(m.2),
        ),
    ));
}

} // verus!
