//! Coupled models and the structure resolver.
//!
//! A coupled model is a static composition: a set of named child models plus
//! three kinds of couplings — internal (child output to sibling input),
//! external input (own input to child input) and external output (child
//! output to own output).  All references are by name; registering a
//! coupling fails at assembly time if a name is unknown, if the two ports
//! declare different value-type tags, or if the same coupling is declared
//! twice.
//!
//! Resolution is performed as the structure is assembled, bottom-up: a child
//! is always a finished model when it is registered, so every coupling added
//! here can immediately be composed, through the child's already-resolved
//! port maps, down to the atomic models it connects.  The result is a flat
//! arena of atomic models plus an index-based routing table; at run time a
//! single output write fans out without re-walking the tree.  Because a
//! finished child is consumed when it is registered, coupling chains always
//! lead strictly from atomic outputs, outward through finished scopes,
//! sideways through one internal coupling, and inward to atomic inputs; no
//! chain can loop, so resolution cannot introduce unbounded fan-out and
//! never duplicates or drops a declared path.

use crate::atomic::{decls_match, AtomicModel};
use crate::port::PortDecl;
use vstd::prelude::*;

verus! {

/// One end of a resolved coupling: an atomic model in the arena and a port
/// index within that model's declarations.
#[derive(Clone, Copy, Debug, PartialEq, Eq, Structural)]
pub struct Endpoint {
    pub model: usize,
    pub port: usize,
}

/// A resolved delivery path: whenever the source model emits on the source
/// output port, the value lands in the destination model's input port bag.
#[derive(Clone, Copy, Debug, PartialEq, Eq, Structural)]
pub struct Route {
    pub src_model: usize,
    pub src_port: usize,
    pub dst_model: usize,
    pub dst_port: usize,
}

/// Why an assembly step was rejected.  Assembly errors are fatal: the
/// structure is handed back unchanged and no simulation can start from a
/// rejected registration.
#[derive(Clone, Copy, Debug, PartialEq, Eq, Structural)]
pub enum AssemblyError {
    /// A sibling with the same name is already registered.
    DuplicateChildName,
    /// A model declares, or this scope already has, two ports with the same
    /// name and role.
    DuplicatePortName,
    /// A coupling names a child that does not exist in this scope.
    NoSuchChild,
    /// A coupling names a port that the named model does not declare.
    NoSuchPort,
    /// The two ends of a coupling declare different value-type tags.
    TypeMismatch,
    /// Exactly this coupling has already been declared.
    DuplicateCoupling,
}

/// An atomic model in the flattened arena, with the name it was registered
/// under and a snapshot of its port declarations.
pub struct ModelEntry<M> {
    pub name: String,
    pub model: M,
    pub in_decls: Vec<PortDecl>,
    pub out_decls: Vec<PortDecl>,
}

/// The external interface of one registered child, already resolved against
/// the arena: for each of the child's input ports, the atomic input ports a
/// value delivered there reaches; for each of its output ports, the atomic
/// output ports that feed it.
pub struct ChildInterface {
    pub name: String,
    pub in_decls: Vec<PortDecl>,
    pub out_decls: Vec<PortDecl>,
    pub in_targets: Vec<Vec<Endpoint>>,
    pub out_sources: Vec<Vec<Endpoint>>,
}

/// An internal coupling as declared, by child and port indices; kept to
/// reject duplicate declarations.
#[derive(Clone, Copy, Debug, PartialEq, Eq, Structural)]
pub struct IcKey {
    pub src_child: usize,
    pub src_port: usize,
    pub dst_child: usize,
    pub dst_port: usize,
}

/// An external input or output coupling as declared, by indices; kept to
/// reject duplicate declarations.
#[derive(Clone, Copy, Debug, PartialEq, Eq, Structural)]
pub struct ExtKey {
    pub own_port: usize,
    pub child: usize,
    pub child_port: usize,
}

/// A coupled model: a static graph of children plus couplings, kept in
/// resolved (flattened) form throughout assembly.  Every registration
/// method requires and preserves `wf`; writing the fields directly
/// forfeits that invariant and with it the ability to keep assembling or
/// to start a run.
pub struct Coupled<M> {
    pub name: String,
    pub models: Vec<ModelEntry<M>>,
    pub routes: Vec<Route>,
    pub in_decls: Vec<PortDecl>,
    pub out_decls: Vec<PortDecl>,
    pub in_targets: Vec<Vec<Endpoint>>,
    pub out_sources: Vec<Vec<Endpoint>>,
    pub children: Vec<ChildInterface>,
    pub ics: Vec<IcKey>,
    pub eics: Vec<ExtKey>,
    pub eocs: Vec<ExtKey>,
}

/// The names of a sequence of port declarations.
pub open spec fn decl_names(decls: Seq<PortDecl>) -> Seq<Seq<char>> {
    Seq::new(decls.len(), |k: int| decls[k].name@)
}

/// The names of a sequence of abstract port declarations.
pub open spec fn spec_decl_names(decls: Seq<(Seq<char>, u32)>) -> Seq<Seq<char>> {
    Seq::new(decls.len(), |k: int| decls[k].0)
}

/// The names of a sequence of child interfaces.
pub open spec fn child_names(cs: Seq<ChildInterface>) -> Seq<Seq<char>> {
    Seq::new(cs.len(), |k: int| cs[k].name@)
}

/// No two names in the sequence are equal.
pub open spec fn names_unique(names: Seq<Seq<char>>) -> bool {
    forall|i: int, j: int| #![trigger names[i], names[j]] 0 <= i < j < names.len() ==> names[i] != names[j]
}

/// Whether `name` occurs in `names`.
pub open spec fn has_name(names: Seq<Seq<char>>, name: Seq<char>) -> bool {
    exists|j: int| 0 <= j < names.len() && names[j] == name
}

/// The index at which `name` occurs; meaningful when `has_name` holds and
/// the names are unique.
pub open spec fn index_of_name(names: Seq<Seq<char>>, name: Seq<char>) -> int {
    choose|j: int| 0 <= j < names.len() && names[j] == name
}

/// First declaration with the given name, if any.
fn find_decl(decls: &Vec<PortDecl>, name: &String) -> (r: Option<usize>)
    ensures
        match r {
            Some(k) => k < decls@.len() && decl_names(decls@)[k as int] == name@,
            None => !has_name(decl_names(decls@), name@),
        },
{
    let n = decls.len();
    let mut k: usize = 0;
    while k < n
        invariant
            k <= n,
            n == decls@.len(),
            forall|j: int| 0 <= j < k ==> decl_names(decls@)[j] != name@,
        decreases n - k,
    {
        if decls[k].name == *name {
            return Some(k);
        }
        k = k + 1;
    }
    None
}

/// First child with the given name, if any.
fn find_child(children: &Vec<ChildInterface>, name: &String) -> (r: Option<usize>)
    ensures
        match r {
            Some(k) => k < children@.len() && child_names(children@)[k as int] == name@,
            None => !has_name(child_names(children@), name@),
        },
{
    let n = children.len();
    let mut k: usize = 0;
    while k < n
        invariant
            k <= n,
            n == children@.len(),
            forall|j: int| 0 <= j < k ==> child_names(children@)[j] != name@,
        decreases n - k,
    {
        if children[k].name == *name {
            return Some(k);
        }
        k = k + 1;
    }
    None
}

/// Whether the declarations carry pairwise distinct names.
fn names_distinct(decls: &Vec<PortDecl>) -> (b: bool)
    ensures
        b == names_unique(decl_names(decls@)),
{
    let n = decls.len();
    let mut i: usize = 0;
    while i < n
        invariant
            i <= n,
            n == decls@.len(),
            forall|a: int, b2: int| #![trigger decl_names(decls@)[a], decl_names(decls@)[b2]]
                0 <= a < b2 < n && a < i ==> decl_names(decls@)[a] != decl_names(decls@)[b2],
        decreases n - i,
    {
        let mut j: usize = i + 1;
        while j < n
            invariant
                i < j || i + 1 == j,
                i < n,
                j <= n,
                n == decls@.len(),
                i + 1 <= j,
                forall|b2: int| i < b2 < j ==> decl_names(decls@)[i as int] != (#[trigger] decl_names(
                    decls@,
                )[b2]),
            decreases n - j,
        {
            if decls[i].name == decls[j].name {
                proof {
                    assert(decl_names(decls@)[i as int] == decl_names(decls@)[j as int]);
                }
                return false;
            }
            j = j + 1;
        }
        i = i + 1;
    }
    true
}

/// Whether a sequence of declared internal couplings holds `key`.
fn contains_ic(keys: &Vec<IcKey>, key: IcKey) -> (b: bool)
    ensures
        b == keys@.contains(key),
{
    let n = keys.len();
    let mut k: usize = 0;
    while k < n
        invariant
            k <= n,
            n == keys@.len(),
            forall|j: int| 0 <= j < k ==> keys@[j] != key,
        decreases n - k,
    {
        if keys[k] == key {
            return true;
        }
        k = k + 1;
    }
    false
}

/// Whether a sequence of declared external couplings holds `key`.
fn contains_ext(keys: &Vec<ExtKey>, key: ExtKey) -> (b: bool)
    ensures
        b == keys@.contains(key),
{
    let n = keys.len();
    let mut k: usize = 0;
    while k < n
        invariant
            k <= n,
            n == keys@.len(),
            forall|j: int| 0 <= j < k ==> keys@[j] != key,
        decreases n - k,
    {
        if keys[k] == key {
            return true;
        }
        k = k + 1;
    }
    false
}

/// A copy of a list of endpoints.
fn copy_endpoints(src: &Vec<Endpoint>) -> (r: Vec<Endpoint>)
    ensures
        r@ == src@,
{
    let mut r: Vec<Endpoint> = Vec::new();
    let n = src.len();
    let mut k: usize = 0;
    while k < n
        invariant
            k <= n,
            n == src@.len(),
            r@ == src@.take(k as int),
        decreases n - k,
    {
        r.push(src[k]);
        proof {
            assert(src@.take(k + 1 as int) =~= src@.take(k as int).push(src@[k as int]));
        }
        k = k + 1;
    }
    proof {
        assert(src@.take(n as int) =~= src@);
    }
    r
}

/// Append one endpoint to the list at index `i` of a family, leaving the
/// other lists untouched.
fn push_into(v: &mut Vec<Vec<Endpoint>>, i: usize, e: Endpoint)
    requires
        i < old(v)@.len(),
    ensures
        final(v)@.len() == old(v)@.len(),
        final(v)@[i as int]@ == old(v)@[i as int]@.push(e),
        forall|k: int| 0 <= k < old(v)@.len() && k != i ==> final(v)@[k] == old(v)@[k],
{
    let inner = &mut v[i];
    inner.push(e);
}

/// With unique names, the index of a name is the only position holding it.
pub proof fn lemma_index_of_name(names: Seq<Seq<char>>, name: Seq<char>, k: int)
    requires
        names_unique(names),
        0 <= k < names.len(),
        names[k] == name,
    ensures
        index_of_name(names, name) == k,
        has_name(names, name),
{
    let j = index_of_name(names, name);
    assert(0 <= j < names.len() && names[j] == name);
    if j < k {
        assert(names[j] != names[k]);
    } else if k < j {
        assert(names[k] != names[j]);
    }
}

/// An endpoint moved by `base` arena slots.
pub open spec fn offset_ep(e: Endpoint, base: int) -> Endpoint {
    Endpoint { model: (e.model + base) as usize, port: e.port }
}

/// A route moved by `base` arena slots.
pub open spec fn offset_route(r: Route, base: int) -> Route {
    Route {
        src_model: (r.src_model + base) as usize,
        src_port: r.src_port,
        dst_model: (r.dst_model + base) as usize,
        dst_port: r.dst_port,
    }
}

/// The route that delivers from an atomic output endpoint to an atomic
/// input endpoint.
pub open spec fn route_of(s: Endpoint, d: Endpoint) -> Route {
    Route { src_model: s.model, src_port: s.port, dst_model: d.model, dst_port: d.port }
}

/// The routes from one source endpoint to each destination, in order.
pub open spec fn row_routes(s: Endpoint, dsts: Seq<Endpoint>) -> Seq<Route> {
    Seq::new(dsts.len(), |b: int| route_of(s, dsts[b]))
}

/// The routes of a full source-by-destination coupling, source-major.
pub open spec fn cross_routes(srcs: Seq<Endpoint>, dsts: Seq<Endpoint>) -> Seq<Route>
    decreases srcs.len(),
{
    if srcs.len() == 0 {
        Seq::empty()
    } else {
        cross_routes(srcs.drop_last(), dsts) + row_routes(srcs.last(), dsts)
    }
}

/// The cross product of one source and one destination endpoint is the
/// single direct route between them.
pub proof fn lemma_cross_routes_singleton(s: Endpoint, d: Endpoint)
    ensures
        cross_routes(seq![s], seq![d]) == seq![route_of(s, d)],
{
    assert(seq![s].drop_last() =~= Seq::<Endpoint>::empty());
    assert(cross_routes(Seq::<Endpoint>::empty(), seq![d]) == Seq::<Route>::empty());
    assert(seq![s].last() == s);
    assert(row_routes(s, seq![d]) =~= seq![route_of(s, d)]);
    assert(cross_routes(seq![s], seq![d]) =~= seq![route_of(s, d)]);
}

/// Every route of a tag-consistent coupling's cross product is well formed.
pub proof fn lemma_cross_routes_wf<M: AtomicModel>(
    srcs: Seq<Endpoint>,
    dsts: Seq<Endpoint>,
    models: Seq<ModelEntry<M>>,
    tag: u32,
)
    requires
        eps_wf_out(srcs, models, tag),
        eps_wf_in(dsts, models, tag),
    ensures
        forall|k: int|
            0 <= k < cross_routes(srcs, dsts).len() ==> route_wf(
                #[trigger] cross_routes(srcs, dsts)[k],
                models,
            ),
    decreases srcs.len(),
{
    if srcs.len() > 0 {
        let front = srcs.drop_last();
        assert(eps_wf_out(front, models, tag)) by {
            assert forall|k: int| 0 <= k < front.len() implies {
                let e = #[trigger] front[k];
                &&& e.model < models.len()
                &&& e.port < models[e.model as int].out_decls@.len()
                &&& models[e.model as int].out_decls@[e.port as int].tag == tag
            } by {
                assert(front[k] == srcs[k]);
            }
        }
        lemma_cross_routes_wf(front, dsts, models, tag);
        assert forall|k: int| 0 <= k < cross_routes(srcs, dsts).len() implies route_wf(
            #[trigger] cross_routes(srcs, dsts)[k],
            models,
        ) by {
            let left = cross_routes(front, dsts);
            if k < left.len() {
                assert(cross_routes(srcs, dsts)[k] == left[k]);
            } else {
                let b = k - left.len();
                assert(cross_routes(srcs, dsts)[k] == route_of(srcs.last(), dsts[b]));
            }
        }
    }
}

/// `new` is `old` with exactly one element appended.
pub open spec fn pushed<T>(prev: Seq<T>, new: Seq<T>) -> bool {
    new.len() == prev.len() + 1 && new.take(prev.len() as int) == prev
}

/// An arena entry faithfully snapshots its model's declarations and names
/// its ports uniquely per role.
pub open spec fn entry_wf<M: AtomicModel>(e: ModelEntry<M>) -> bool {
    &&& decls_match(e.in_decls@, e.model.input_decls())
    &&& decls_match(e.out_decls@, e.model.output_decls())
    &&& names_unique(decl_names(e.in_decls@))
    &&& names_unique(decl_names(e.out_decls@))
}

/// Every endpoint names a valid atomic input port whose declared tag is
/// `tag`.
pub open spec fn eps_wf_in<M>(eps: Seq<Endpoint>, models: Seq<ModelEntry<M>>, tag: u32) -> bool {
    forall|k: int|
        0 <= k < eps.len() ==> {
            let e = #[trigger] eps[k];
            &&& e.model < models.len()
            &&& e.port < models[e.model as int].in_decls@.len()
            &&& models[e.model as int].in_decls@[e.port as int].tag == tag
        }
}

/// Every endpoint names a valid atomic output port whose declared tag is
/// `tag`.
pub open spec fn eps_wf_out<M>(eps: Seq<Endpoint>, models: Seq<ModelEntry<M>>, tag: u32) -> bool {
    forall|k: int|
        0 <= k < eps.len() ==> {
            let e = #[trigger] eps[k];
            &&& e.model < models.len()
            &&& e.port < models[e.model as int].out_decls@.len()
            &&& models[e.model as int].out_decls@[e.port as int].tag == tag
        }
}

/// A route connects a valid output port to a valid input port of equal tag.
pub open spec fn route_wf<M>(r: Route, models: Seq<ModelEntry<M>>) -> bool {
    &&& r.src_model < models.len()
    &&& r.src_port < models[r.src_model as int].out_decls@.len()
    &&& r.dst_model < models.len()
    &&& r.dst_port < models[r.dst_model as int].in_decls@.len()
    &&& models[r.src_model as int].out_decls@[r.src_port as int].tag
        == models[r.dst_model as int].in_decls@[r.dst_port as int].tag
}

/// A child interface is internally consistent and resolved against the
/// arena: one endpoint list per port, endpoints valid, tags preserved.
pub open spec fn child_wf<M>(c: ChildInterface, models: Seq<ModelEntry<M>>) -> bool {
    &&& c.in_targets@.len() == c.in_decls@.len()
    &&& c.out_sources@.len() == c.out_decls@.len()
    &&& names_unique(decl_names(c.in_decls@))
    &&& names_unique(decl_names(c.out_decls@))
    &&& forall|p: int|
        0 <= p < c.in_decls@.len() ==> eps_wf_in(
            (#[trigger] c.in_targets@[p])@,
            models,
            c.in_decls@[p].tag,
        )
    &&& forall|q: int|
        0 <= q < c.out_decls@.len() ==> eps_wf_out(
            (#[trigger] c.out_sources@[q])@,
            models,
            c.out_decls@[q].tag,
        )
}

impl<M: AtomicModel> Coupled<M> {
    /// Well-formedness: the resolved structure is internally consistent.
    /// Established by `new` and preserved by every assembly step.
    pub open spec fn wf(self) -> bool {
        &&& self.in_targets@.len() == self.in_decls@.len()
        &&& self.out_sources@.len() == self.out_decls@.len()
        &&& names_unique(decl_names(self.in_decls@))
        &&& names_unique(decl_names(self.out_decls@))
        &&& names_unique(child_names(self.children@))
        &&& forall|m: int| 0 <= m < self.models@.len() ==> entry_wf(#[trigger] self.models@[m])
        &&& forall|p: int|
            0 <= p < self.in_decls@.len() ==> eps_wf_in(
                (#[trigger] self.in_targets@[p])@,
                self.models@,
                self.in_decls@[p].tag,
            )
        &&& forall|q: int|
            0 <= q < self.out_decls@.len() ==> eps_wf_out(
                (#[trigger] self.out_sources@[q])@,
                self.models@,
                self.out_decls@[q].tag,
            )
        &&& forall|r: int| 0 <= r < self.routes@.len() ==> route_wf(#[trigger] self.routes@[r], self.models@)
        &&& forall|c: int| 0 <= c < self.children@.len() ==> child_wf(#[trigger] self.children@[c], self.models@)
    }

    /// The parts of the structure that registering an input port leaves
    /// untouched.
    pub open spec fn same_but_in_ports(self, o: Self) -> bool {
        &&& self.name == o.name
        &&& self.models@ == o.models@
        &&& self.routes@ == o.routes@
        &&& self.out_decls@ == o.out_decls@
        &&& self.out_sources@ == o.out_sources@
        &&& self.children@ == o.children@
        &&& self.ics@ == o.ics@
        &&& self.eics@ == o.eics@
        &&& self.eocs@ == o.eocs@
    }

    /// The parts of the structure that registering an output port leaves
    /// untouched.
    pub open spec fn same_but_out_ports(self, o: Self) -> bool {
        &&& self.name == o.name
        &&& self.models@ == o.models@
        &&& self.routes@ == o.routes@
        &&& self.in_decls@ == o.in_decls@
        &&& self.in_targets@ == o.in_targets@
        &&& self.children@ == o.children@
        &&& self.ics@ == o.ics@
        &&& self.eics@ == o.eics@
        &&& self.eocs@ == o.eocs@
    }

    /// The parts of the structure that registering a child leaves
    /// untouched.
    pub open spec fn same_but_children(self, o: Self) -> bool {
        &&& self.name == o.name
        &&& self.in_decls@ == o.in_decls@
        &&& self.in_targets@ == o.in_targets@
        &&& self.out_decls@ == o.out_decls@
        &&& self.out_sources@ == o.out_sources@
        &&& self.ics@ == o.ics@
        &&& self.eics@ == o.eics@
        &&& self.eocs@ == o.eocs@
    }

    /// Declare an input port on this coupled model itself.  Values arriving
    /// on it are forwarded along the external input couplings registered for
    /// it.  Fails if an input port of that name already exists.
    pub fn add_in_port(&mut self, name: &str, tag: u32) -> (r: Result<(), AssemblyError>)
        requires
            old(self).wf(),
        ensures
            final(self).wf(),
            match r {
                Ok(()) => {
                    &&& !has_name(decl_names(old(self).in_decls@), name@)
                    &&& pushed(old(self).in_decls@, final(self).in_decls@)
                    &&& final(self).in_decls@.last().name@ == name@
                    &&& final(self).in_decls@.last().tag == tag
                    &&& pushed(old(self).in_targets@, final(self).in_targets@)
                    &&& final(self).in_targets@.last()@ == Seq::<Endpoint>::empty()
                    &&& final(self).same_but_in_ports(*old(self))
                },
                Err(e) => {
                    &&& e == AssemblyError::DuplicatePortName
                    &&& has_name(decl_names(old(self).in_decls@), name@)
                    &&& *final(self) == *old(self)
                },
            },
    {
        let name_s = name.to_owned();
        match find_decl(&self.in_decls, &name_s) {
            Some(_) => Err(AssemblyError::DuplicatePortName),
            None => {
                self.in_decls.push(PortDecl { name: name_s, tag });
                self.in_targets.push(Vec::new());
                proof {
                    let prev = old(self).in_decls@;
                    let now = self.in_decls@;
                    assert(now.take(prev.len() as int) =~= prev);
                    assert(decl_names(now) =~= decl_names(prev).push(name@));
                    assert(self.in_targets@.take(old(self).in_targets@.len() as int)
                        =~= old(self).in_targets@);
                    assert forall|i: int, j: int| #![trigger decl_names(now)[i], decl_names(now)[j]]
                        0 <= i < j < now.len() implies decl_names(now)[i] != decl_names(now)[j] by {
                        if j == now.len() - 1 {
                            assert(!has_name(decl_names(prev), name@));
                            assert(decl_names(prev)[i] != name@);
                        }
                    }
                }
                Ok(())
            },
        }
    }

    /// Declare an output port on this coupled model itself.  Values of the
    /// atomic output ports coupled to it (through external output couplings)
    /// appear on it.  Fails if an output port of that name already exists.
    pub fn add_out_port(&mut self, name: &str, tag: u32) -> (r: Result<(), AssemblyError>)
        requires
            old(self).wf(),
        ensures
            final(self).wf(),
            match r {
                Ok(()) => {
                    &&& !has_name(decl_names(old(self).out_decls@), name@)
                    &&& pushed(old(self).out_decls@, final(self).out_decls@)
                    &&& final(self).out_decls@.last().name@ == name@
                    &&& final(self).out_decls@.last().tag == tag
                    &&& pushed(old(self).out_sources@, final(self).out_sources@)
                    &&& final(self).out_sources@.last()@ == Seq::<Endpoint>::empty()
                    &&& final(self).same_but_out_ports(*old(self))
                },
                Err(e) => {
                    &&& e == AssemblyError::DuplicatePortName
                    &&& has_name(decl_names(old(self).out_decls@), name@)
                    &&& *final(self) == *old(self)
                },
            },
    {
        let name_s = name.to_owned();
        match find_decl(&self.out_decls, &name_s) {
            Some(_) => Err(AssemblyError::DuplicatePortName),
            None => {
                self.out_decls.push(PortDecl { name: name_s, tag });
                self.out_sources.push(Vec::new());
                proof {
                    let prev = old(self).out_decls@;
                    let now = self.out_decls@;
                    assert(now.take(prev.len() as int) =~= prev);
                    assert(decl_names(now) =~= decl_names(prev).push(name@));
                    assert(self.out_sources@.take(old(self).out_sources@.len() as int)
                        =~= old(self).out_sources@);
                    assert forall|i: int, j: int| #![trigger decl_names(now)[i], decl_names(now)[j]]
                        0 <= i < j < now.len() implies decl_names(now)[i] != decl_names(now)[j] by {
                        if j == now.len() - 1 {
                            assert(!has_name(decl_names(prev), name@));
                            assert(decl_names(prev)[i] != name@);
                        }
                    }
                }
                Ok(())
            },
        }
    }

    /// The arena entry registered for `m` under `name`.
    pub open spec fn entry_matches(e: ModelEntry<M>, name: Seq<char>, m: M) -> bool {
        &&& e.name@ == name
        &&& e.model == m
        &&& decls_match(e.in_decls@, m.input_decls())
        &&& decls_match(e.out_decls@, m.output_decls())
    }

    /// The child interface registered for an atomic model `m` placed at
    /// arena index `idx`: each external port maps to the model's own port.
    pub open spec fn atomic_child_matches(c: ChildInterface, name: Seq<char>, m: M, idx: int) -> bool {
        &&& c.name@ == name
        &&& decls_match(c.in_decls@, m.input_decls())
        &&& decls_match(c.out_decls@, m.output_decls())
        &&& c.in_targets@.len() == m.input_decls().len()
        &&& forall|p: int|
            0 <= p < c.in_targets@.len() ==> (#[trigger] c.in_targets@[p])@ == seq![
                Endpoint { model: idx as usize, port: p as usize },
            ]
        &&& c.out_sources@.len() == m.output_decls().len()
        &&& forall|q: int|
            0 <= q < c.out_sources@.len() ==> (#[trigger] c.out_sources@[q])@ == seq![
                Endpoint { model: idx as usize, port: q as usize },
            ]
    }

    /// Register an atomic model as a child of this scope.  Fails if a
    /// sibling of the same name exists, or if the model declares two ports
    /// of the same name and role.
    pub fn add_atomic(&mut self, name: &str, model: M) -> (r: Result<(), AssemblyError>)
        requires
            old(self).wf(),
        ensures
            final(self).wf(),
            match r {
                Ok(()) => {
                    &&& !has_name(child_names(old(self).children@), name@)
                    &&& names_unique(spec_decl_names(model.input_decls()))
                    &&& names_unique(spec_decl_names(model.output_decls()))
                    &&& pushed(old(self).models@, final(self).models@)
                    &&& Self::entry_matches(final(self).models@.last(), name@, model)
                    &&& pushed(old(self).children@, final(self).children@)
                    &&& Self::atomic_child_matches(
                        final(self).children@.last(),
                        name@,
                        model,
                        old(self).models@.len() as int,
                    )
                    &&& final(self).routes@ == old(self).routes@
                    &&& final(self).same_but_children(*old(self))
                },
                Err(AssemblyError::DuplicateChildName) => {
                    &&& has_name(child_names(old(self).children@), name@)
                    &&& *final(self) == *old(self)
                },
                Err(e) => {
                    &&& e == AssemblyError::DuplicatePortName
                    &&& !has_name(child_names(old(self).children@), name@)
                    &&& !(names_unique(spec_decl_names(model.input_decls()))
                        && names_unique(spec_decl_names(model.output_decls())))
                    &&& *final(self) == *old(self)
                },
            },
    {
        let name_s = name.to_owned();
        if let Some(_) = find_child(&self.children, &name_s) {
            return Err(AssemblyError::DuplicateChildName);
        }
        let in_decls = model.input_ports();
        let out_decls = model.output_ports();
        proof {
            assert(decl_names(in_decls@) =~= spec_decl_names(model.input_decls()));
            assert(decl_names(out_decls@) =~= spec_decl_names(model.output_decls()));
        }
        if !names_distinct(&in_decls) || !names_distinct(&out_decls) {
            return Err(AssemblyError::DuplicatePortName);
        }
        let idx = self.models.len();
        let ci_in = model.input_ports();
        let ci_out = model.output_ports();
        let mut in_targets: Vec<Vec<Endpoint>> = Vec::new();
        let n_in = ci_in.len();
        let mut p: usize = 0;
        while p < n_in
            invariant
                p <= n_in,
                in_targets@.len() == p,
                forall|k: int|
                    0 <= k < p ==> (#[trigger] in_targets@[k])@ == seq![
                        Endpoint { model: idx, port: k as usize },
                    ],
            decreases n_in - p,
        {
            let mut one: Vec<Endpoint> = Vec::new();
            one.push(Endpoint { model: idx, port: p });
            proof {
                assert(one@ =~= seq![Endpoint { model: idx, port: p }]);
            }
            in_targets.push(one);
            p = p + 1;
        }
        let mut out_sources: Vec<Vec<Endpoint>> = Vec::new();
        let n_out = ci_out.len();
        let mut q: usize = 0;
        while q < n_out
            invariant
                q <= n_out,
                out_sources@.len() == q,
                forall|k: int|
                    0 <= k < q ==> (#[trigger] out_sources@[k])@ == seq![
                        Endpoint { model: idx, port: k as usize },
                    ],
            decreases n_out - q,
        {
            let mut one: Vec<Endpoint> = Vec::new();
            one.push(Endpoint { model: idx, port: q });
            proof {
                assert(one@ =~= seq![Endpoint { model: idx, port: q }]);
            }
            out_sources.push(one);
            q = q + 1;
        }
        self.models.push(ModelEntry { name: name_s, model, in_decls, out_decls });
        self.children.push(
            ChildInterface {
                name: name.to_owned(),
                in_decls: ci_in,
                out_decls: ci_out,
                in_targets,
                out_sources,
            },
        );
        proof {
            let oldm = old(self).models@;
            let newm = self.models@;
            assert(newm.take(oldm.len() as int) =~= oldm);
            assert(self.children@.take(old(self).children@.len() as int) =~= old(self).children@);
            assert(child_names(self.children@) =~= child_names(old(self).children@).push(name@));
            assert forall|i: int, j: int|
                #![trigger child_names(self.children@)[i], child_names(self.children@)[j]]
                0 <= i < j < self.children@.len() implies child_names(self.children@)[i]
                != child_names(self.children@)[j] by {
                if j == self.children@.len() - 1 {
                    assert(!has_name(child_names(old(self).children@), name@));
                    assert(child_names(old(self).children@)[i] != name@);
                }
            }
            assert forall|c: int| 0 <= c < self.children@.len() implies child_wf(
                #[trigger] self.children@[c],
                newm,
            ) by {
                if c == self.children@.len() - 1 {
                    let ch = self.children@[c];
                    assert(decl_names(ch.in_decls@) =~= spec_decl_names(model.input_decls()));
                    assert(decl_names(ch.out_decls@) =~= spec_decl_names(model.output_decls()));
                    assert forall|pp: int| 0 <= pp < ch.in_decls@.len() implies eps_wf_in(
                        (#[trigger] ch.in_targets@[pp])@,
                        newm,
                        ch.in_decls@[pp].tag,
                    ) by {
                        let eps = ch.in_targets@[pp]@;
                        assert(eps == seq![Endpoint { model: idx, port: pp as usize }]);
                        assert(eps[0] == Endpoint { model: idx, port: pp as usize });
                        assert(newm[idx as int].in_decls@[pp].tag == model.input_decls()[pp].1);
                    }
                    assert forall|qq: int| 0 <= qq < ch.out_decls@.len() implies eps_wf_out(
                        (#[trigger] ch.out_sources@[qq])@,
                        newm,
                        ch.out_decls@[qq].tag,
                    ) by {
                        let eps = ch.out_sources@[qq]@;
                        assert(eps == seq![Endpoint { model: idx, port: qq as usize }]);
                        assert(eps[0] == Endpoint { model: idx, port: qq as usize });
                        assert(newm[idx as int].out_decls@[qq].tag == model.output_decls()[qq].1);
                    }
                } else {
                    assert(child_wf(old(self).children@[c], oldm));
                    let ch = self.children@[c];
                    assert forall|pp: int| 0 <= pp < ch.in_decls@.len() implies eps_wf_in(
                        (#[trigger] ch.in_targets@[pp])@,
                        newm,
                        ch.in_decls@[pp].tag,
                    ) by {
                        assert(eps_wf_in(ch.in_targets@[pp]@, oldm, ch.in_decls@[pp].tag));
                    }
                    assert forall|qq: int| 0 <= qq < ch.out_decls@.len() implies eps_wf_out(
                        (#[trigger] ch.out_sources@[qq])@,
                        newm,
                        ch.out_decls@[qq].tag,
                    ) by {
                        assert(eps_wf_out(ch.out_sources@[qq]@, oldm, ch.out_decls@[qq].tag));
                    }
                }
            }
            assert forall|r2: int| 0 <= r2 < self.routes@.len() implies route_wf(
                #[trigger] self.routes@[r2],
                newm,
            ) by {
                assert(route_wf(self.routes@[r2], oldm));
            }
            assert forall|pp: int| 0 <= pp < self.in_decls@.len() implies eps_wf_in(
                (#[trigger] self.in_targets@[pp])@,
                newm,
                self.in_decls@[pp].tag,
            ) by {
                assert(eps_wf_in(self.in_targets@[pp]@, oldm, self.in_decls@[pp].tag));
            }
            assert forall|qq: int| 0 <= qq < self.out_decls@.len() implies eps_wf_out(
                (#[trigger] self.out_sources@[qq])@,
                newm,
                self.out_decls@[qq].tag,
            ) by {
                assert(eps_wf_out(self.out_sources@[qq]@, oldm, self.out_decls@[qq].tag));
            }
        }
        Ok(())
    }

    /// The child interface registered for a finished coupled model placed
    /// with its arena shifted by `base`: its external ports keep their
    /// declarations, and every resolved endpoint moves with the arena.
    pub open spec fn coupled_child_matches(
        c: ChildInterface,
        name: Seq<char>,
        ch: Coupled<M>,
        base: int,
    ) -> bool {
        &&& c.name@ == name
        &&& c.in_decls@ == ch.in_decls@
        &&& c.out_decls@ == ch.out_decls@
        &&& c.in_targets@.len() == ch.in_targets@.len()
        &&& forall|p: int|
            0 <= p < c.in_targets@.len() ==> (#[trigger] c.in_targets@[p])@ == ch.in_targets@[p]@.map_values(
                |e: Endpoint| offset_ep(e, base),
            )
        &&& c.out_sources@.len() == ch.out_sources@.len()
        &&& forall|q: int|
            0 <= q < c.out_sources@.len() ==> (#[trigger] c.out_sources@[q])@ == ch.out_sources@[q]@.map_values(
                |e: Endpoint| offset_ep(e, base),
            )
    }

    /// Register a finished coupled model as a child of this scope.  Its
    /// atomic models join this scope's arena, its resolved routes move with
    /// them, and its external ports become the child's coupling interface.
    /// Fails if a sibling of the same name exists.
    pub fn add_coupled(&mut self, name: &str, child: Coupled<M>) -> (r: Result<(), AssemblyError>)
        requires
            old(self).wf(),
            child.wf(),
        ensures
            final(self).wf(),
            match r {
                Ok(()) => {
                    &&& !has_name(child_names(old(self).children@), name@)
                    &&& final(self).models@ == old(self).models@ + child.models@
                    &&& final(self).routes@ == old(self).routes@ + child.routes@.map_values(
                        |r2: Route| offset_route(r2, old(self).models@.len() as int),
                    )
                    &&& pushed(old(self).children@, final(self).children@)
                    &&& Self::coupled_child_matches(
                        final(self).children@.last(),
                        name@,
                        child,
                        old(self).models@.len() as int,
                    )
                    &&& final(self).same_but_children(*old(self))
                },
                Err(e) => {
                    &&& e == AssemblyError::DuplicateChildName
                    &&& has_name(child_names(old(self).children@), name@)
                    &&& *final(self) == *old(self)
                },
            },
    {
        let ghost child0 = child;
        let mut child = child;
        let name_s = name.to_owned();
        if let Some(_) = find_child(&self.children, &name_s) {
            return Err(AssemblyError::DuplicateChildName);
        }
        let base = self.models.len();
        let child_n = child.models.len();
        self.models.append(&mut child.models);
        let total = self.models.len();
        proof {
            assert(total as int == base + child_n);
        }
        let nr = child.routes.len();
        let mut k: usize = 0;
        while k < nr
            invariant
                k <= nr,
                nr == child0.routes@.len(),
                child.routes@ == child0.routes@,
                child.in_targets@ == child0.in_targets@,
                child.out_sources@ == child0.out_sources@,
                child.in_decls@ == child0.in_decls@,
                child.out_decls@ == child0.out_decls@,
                child0.wf(),
                base + child_n <= usize::MAX,
                base == old(self).models@.len(),
                child_n == child0.models@.len(),
                self.models@ == old(self).models@ + child0.models@,
                self.children@ == old(self).children@,
                self.same_but_children(*old(self)),
                self.routes@ == old(self).routes@ + child0.routes@.take(k as int).map_values(
                    |r2: Route| offset_route(r2, base as int),
                ),
            decreases nr - k,
        {
            let r2 = child.routes[k];
            proof {
                assert(route_wf(child0.routes@[k as int], child0.models@));
            }
            self.routes.push(
                Route {
                    src_model: base + r2.src_model,
                    src_port: r2.src_port,
                    dst_model: base + r2.dst_model,
                    dst_port: r2.dst_port,
                },
            );
            proof {
                let f = |rr: Route| offset_route(rr, base as int);
                assert(child0.routes@.take(k + 1 as int).map_values(f) =~= child0.routes@.take(
                    k as int,
                ).map_values(f).push(f(child0.routes@[k as int])));
            }
            k = k + 1;
        }
        proof {
            assert(child0.routes@.take(nr as int) =~= child0.routes@);
        }
        let mut tgts: Vec<Vec<Endpoint>> = Vec::new();
        let ntp = child.in_targets.len();
        let mut p: usize = 0;
        while p < ntp
            invariant
                p <= ntp,
                ntp == child0.in_targets@.len(),
                child.in_targets@ == child0.in_targets@,
                child0.wf(),
                base + child_n <= usize::MAX,
                child_n == child0.models@.len(),
                tgts@.len() == p,
                forall|i: int|
                    0 <= i < p ==> (#[trigger] tgts@[i])@ == child0.in_targets@[i]@.map_values(
                        |e: Endpoint| offset_ep(e, base as int),
                    ),
            decreases ntp - p,
        {
            let src = &child.in_targets[p];
            let m = src.len();
            let mut one: Vec<Endpoint> = Vec::new();
            let mut j: usize = 0;
            while j < m
                invariant
                    j <= m,
                    m == child0.in_targets@[p as int]@.len(),
                    p < child0.in_targets@.len(),
                    src@ == child0.in_targets@[p as int]@,
                    child0.wf(),
                    base + child_n <= usize::MAX,
                    child_n == child0.models@.len(),
                    one@ == child0.in_targets@[p as int]@.take(j as int).map_values(
                        |e: Endpoint| offset_ep(e, base as int),
                    ),
                decreases m - j,
            {
                let e = src[j];
                proof {
                    assert(eps_wf_in(
                        child0.in_targets@[p as int]@,
                        child0.models@,
                        child0.in_decls@[p as int].tag,
                    ));
                    assert(child0.in_targets@[p as int]@[j as int].model < child_n);
                }
                one.push(Endpoint { model: base + e.model, port: e.port });
                proof {
                    let f = |ee: Endpoint| offset_ep(ee, base as int);
                    assert(child0.in_targets@[p as int]@.take(j + 1 as int).map_values(f)
                        =~= child0.in_targets@[p as int]@.take(j as int).map_values(f).push(
                        f(child0.in_targets@[p as int]@[j as int]),
                    ));
                }
                j = j + 1;
            }
            proof {
                assert(child0.in_targets@[p as int]@.take(m as int) =~= child0.in_targets@[p as int]@);
            }
            tgts.push(one);
            p = p + 1;
        }
        let mut srcs: Vec<Vec<Endpoint>> = Vec::new();
        let nsp = child.out_sources.len();
        let mut q: usize = 0;
        while q < nsp
            invariant
                q <= nsp,
                nsp == child0.out_sources@.len(),
                child.out_sources@ == child0.out_sources@,
                child0.wf(),
                base + child_n <= usize::MAX,
                child_n == child0.models@.len(),
                srcs@.len() == q,
                forall|i: int|
                    0 <= i < q ==> (#[trigger] srcs@[i])@ == child0.out_sources@[i]@.map_values(
                        |e: Endpoint| offset_ep(e, base as int),
                    ),
            decreases nsp - q,
        {
            let src = &child.out_sources[q];
            let m = src.len();
            let mut one: Vec<Endpoint> = Vec::new();
            let mut j: usize = 0;
            while j < m
                invariant
                    j <= m,
                    m == child0.out_sources@[q as int]@.len(),
                    q < child0.out_sources@.len(),
                    src@ == child0.out_sources@[q as int]@,
                    child0.wf(),
                    base + child_n <= usize::MAX,
                    child_n == child0.models@.len(),
                    one@ == child0.out_sources@[q as int]@.take(j as int).map_values(
                        |e: Endpoint| offset_ep(e, base as int),
                    ),
                decreases m - j,
            {
                let e = src[j];
                proof {
                    assert(eps_wf_out(
                        child0.out_sources@[q as int]@,
                        child0.models@,
                        child0.out_decls@[q as int].tag,
                    ));
                    assert(child0.out_sources@[q as int]@[j as int].model < child_n);
                }
                one.push(Endpoint { model: base + e.model, port: e.port });
                proof {
                    let f = |ee: Endpoint| offset_ep(ee, base as int);
                    assert(child0.out_sources@[q as int]@.take(j + 1 as int).map_values(f)
                        =~= child0.out_sources@[q as int]@.take(j as int).map_values(f).push(
                        f(child0.out_sources@[q as int]@[j as int]),
                    ));
                }
                j = j + 1;
            }
            proof {
                assert(child0.out_sources@[q as int]@.take(m as int)
                    =~= child0.out_sources@[q as int]@);
            }
            srcs.push(one);
            q = q + 1;
        }
        self.children.push(
            ChildInterface {
                name: name_s,
                in_decls: child.in_decls,
                out_decls: child.out_decls,
                in_targets: tgts,
                out_sources: srcs,
            },
        );
        proof {
            let oldm = old(self).models@;
            let newm = self.models@;
            let b = base as int;
            assert(self.children@.take(old(self).children@.len() as int) =~= old(self).children@);
            assert(child_names(self.children@) =~= child_names(old(self).children@).push(name@));
            assert forall|i: int, j: int|
                #![trigger child_names(self.children@)[i], child_names(self.children@)[j]]
                0 <= i < j < self.children@.len() implies child_names(self.children@)[i]
                != child_names(self.children@)[j] by {
                if j == self.children@.len() - 1 {
                    assert(!has_name(child_names(old(self).children@), name@));
                    assert(child_names(old(self).children@)[i] != name@);
                }
            }
            assert forall|m2: int| 0 <= m2 < newm.len() implies entry_wf(#[trigger] newm[m2]) by {
                if m2 < b {
                    assert(entry_wf(oldm[m2]));
                } else {
                    assert(newm[m2] == child0.models@[m2 - b]);
                    assert(entry_wf(child0.models@[m2 - b]));
                }
            }
            assert forall|r2: int| 0 <= r2 < self.routes@.len() implies route_wf(
                #[trigger] self.routes@[r2],
                newm,
            ) by {
                if r2 < old(self).routes@.len() {
                    assert(self.routes@[r2] == old(self).routes@[r2]);
                    assert(route_wf(old(self).routes@[r2], oldm));
                } else {
                    let rr = child0.routes@[r2 - old(self).routes@.len()];
                    assert(self.routes@[r2] == offset_route(rr, b));
                    assert(route_wf(rr, child0.models@));
                    assert(newm[rr.src_model + b] == child0.models@[rr.src_model as int]);
                    assert(newm[rr.dst_model + b] == child0.models@[rr.dst_model as int]);
                }
            }
            assert forall|pp: int| 0 <= pp < self.in_decls@.len() implies eps_wf_in(
                (#[trigger] self.in_targets@[pp])@,
                newm,
                self.in_decls@[pp].tag,
            ) by {
                assert(eps_wf_in(self.in_targets@[pp]@, oldm, self.in_decls@[pp].tag));
                let eps = self.in_targets@[pp]@;
                assert forall|kk: int| 0 <= kk < eps.len() implies {
                    let e = #[trigger] eps[kk];
                    &&& e.model < newm.len()
                    &&& e.port < newm[e.model as int].in_decls@.len()
                    &&& newm[e.model as int].in_decls@[e.port as int].tag == self.in_decls@[pp].tag
                } by {
                    assert(eps[kk].model < oldm.len());
                }
            }
            assert forall|qq: int| 0 <= qq < self.out_decls@.len() implies eps_wf_out(
                (#[trigger] self.out_sources@[qq])@,
                newm,
                self.out_decls@[qq].tag,
            ) by {
                assert(eps_wf_out(self.out_sources@[qq]@, oldm, self.out_decls@[qq].tag));
                let eps = self.out_sources@[qq]@;
                assert forall|kk: int| 0 <= kk < eps.len() implies {
                    let e = #[trigger] eps[kk];
                    &&& e.model < newm.len()
                    &&& e.port < newm[e.model as int].out_decls@.len()
                    &&& newm[e.model as int].out_decls@[e.port as int].tag == self.out_decls@[qq].tag
                } by {
                    assert(eps[kk].model < oldm.len());
                }
            }
            assert forall|c: int| 0 <= c < self.children@.len() implies child_wf(
                #[trigger] self.children@[c],
                newm,
            ) by {
                if c == self.children@.len() - 1 {
                    let ch = self.children@[c];
                    assert(ch.in_decls@ == child0.in_decls@);
                    assert(ch.out_decls@ == child0.out_decls@);
                    assert forall|pp: int| 0 <= pp < ch.in_decls@.len() implies eps_wf_in(
                        (#[trigger] ch.in_targets@[pp])@,
                        newm,
                        ch.in_decls@[pp].tag,
                    ) by {
                        let f = |ee: Endpoint| offset_ep(ee, b);
                        let orig = child0.in_targets@[pp]@;
                        assert(ch.in_targets@[pp]@ == orig.map_values(f));
                        assert(eps_wf_in(orig, child0.models@, child0.in_decls@[pp].tag));
                        assert forall|kk: int| 0 <= kk < orig.map_values(f).len() implies {
                            let e = #[trigger] orig.map_values(f)[kk];
                            &&& e.model < newm.len()
                            &&& e.port < newm[e.model as int].in_decls@.len()
                            &&& newm[e.model as int].in_decls@[e.port as int].tag
                                == ch.in_decls@[pp].tag
                        } by {
                            assert(orig.map_values(f)[kk] == f(orig[kk]));
                            assert(orig[kk].model < child0.models@.len());
                            assert(newm[orig[kk].model + b] == child0.models@[orig[kk].model as int]);
                        }
                    }
                    assert forall|qq: int| 0 <= qq < ch.out_decls@.len() implies eps_wf_out(
                        (#[trigger] ch.out_sources@[qq])@,
                        newm,
                        ch.out_decls@[qq].tag,
                    ) by {
                        let f = |ee: Endpoint| offset_ep(ee, b);
                        let orig = child0.out_sources@[qq]@;
                        assert(ch.out_sources@[qq]@ == orig.map_values(f));
                        assert(eps_wf_out(orig, child0.models@, child0.out_decls@[qq].tag));
                        assert forall|kk: int| 0 <= kk < orig.map_values(f).len() implies {
                            let e = #[trigger] orig.map_values(f)[kk];
                            &&& e.model < newm.len()
                            &&& e.port < newm[e.model as int].out_decls@.len()
                            &&& newm[e.model as int].out_decls@[e.port as int].tag
                                == ch.out_decls@[qq].tag
                        } by {
                            assert(orig.map_values(f)[kk] == f(orig[kk]));
                            assert(orig[kk].model < child0.models@.len());
                            assert(newm[orig[kk].model + b] == child0.models@[orig[kk].model as int]);
                        }
                    }
                } else {
                    let ch = self.children@[c];
                    assert(child_wf(old(self).children@[c], oldm));
                    assert forall|pp: int| 0 <= pp < ch.in_decls@.len() implies eps_wf_in(
                        (#[trigger] ch.in_targets@[pp])@,
                        newm,
                        ch.in_decls@[pp].tag,
                    ) by {
                        assert(eps_wf_in(ch.in_targets@[pp]@, oldm, ch.in_decls@[pp].tag));
                        let eps = ch.in_targets@[pp]@;
                        assert forall|kk: int| 0 <= kk < eps.len() implies {
                            let e = #[trigger] eps[kk];
                            &&& e.model < newm.len()
                            &&& e.port < newm[e.model as int].in_decls@.len()
                            &&& newm[e.model as int].in_decls@[e.port as int].tag
                                == ch.in_decls@[pp].tag
                        } by {
                            assert(eps[kk].model < oldm.len());
                        }
                    }
                    assert forall|qq: int| 0 <= qq < ch.out_decls@.len() implies eps_wf_out(
                        (#[trigger] ch.out_sources@[qq])@,
                        newm,
                        ch.out_decls@[qq].tag,
                    ) by {
                        assert(eps_wf_out(ch.out_sources@[qq]@, oldm, ch.out_decls@[qq].tag));
                        let eps = ch.out_sources@[qq]@;
                        assert forall|kk: int| 0 <= kk < eps.len() implies {
                            let e = #[trigger] eps[kk];
                            &&& e.model < newm.len()
                            &&& e.port < newm[e.model as int].out_decls@.len()
                            &&& newm[e.model as int].out_decls@[e.port as int].tag
                                == ch.out_decls@[qq].tag
                        } by {
                            assert(eps[kk].model < oldm.len());
                        }
                    }
                }
            }
        }
        Ok(())
    }

    /// The parts of the structure that registering a coupling leaves
    /// untouched.
    pub open spec fn same_but_couplings(self, o: Self) -> bool {
        &&& self.name == o.name
        &&& self.models@ == o.models@
        &&& self.in_decls@ == o.in_decls@
        &&& self.out_decls@ == o.out_decls@
        &&& self.children@ == o.children@
    }

    /// Register an internal coupling: values emitted by child `src` on its
    /// output port `src_port` are delivered to child `dst` on its input
    /// port `dst_port`.  The resolved routes of the coupling — every feeding
    /// atomic output paired with every reached atomic input — are appended
    /// to the routing table.  Fails if a name is unknown, if the port tags
    /// differ, or if exactly this coupling was already declared.
    pub fn add_ic(&mut self, src: &str, src_port: &str, dst: &str, dst_port: &str) -> (r: Result<
        (),
        AssemblyError,
    >)
        requires
            old(self).wf(),
        ensures
            final(self).wf(),
            match r {
                Ok(()) => ({
                    let cn = child_names(old(self).children@);
                    let s = index_of_name(cn, src@);
                    let d = index_of_name(cn, dst@);
                    &&& has_name(cn, src@)
                    &&& has_name(cn, dst@)
                    &&& {
                        let sons = decl_names(old(self).children@[s].out_decls@);
                        let dins = decl_names(old(self).children@[d].in_decls@);
                        let sp = index_of_name(sons, src_port@);
                        let dp = index_of_name(dins, dst_port@);
                        &&& has_name(sons, src_port@)
                        &&& has_name(dins, dst_port@)
                        &&& old(self).children@[s].out_decls@[sp].tag == old(
                            self,
                        ).children@[d].in_decls@[dp].tag
                        &&& !old(self).ics@.contains(
                            IcKey {
                                src_child: s as usize,
                                src_port: sp as usize,
                                dst_child: d as usize,
                                dst_port: dp as usize,
                            },
                        )
                        &&& final(self).routes@ == old(self).routes@ + cross_routes(
                            old(self).children@[s].out_sources@[sp]@,
                            old(self).children@[d].in_targets@[dp]@,
                        )
                        &&& final(self).ics@ == old(self).ics@.push(
                            IcKey {
                                src_child: s as usize,
                                src_port: sp as usize,
                                dst_child: d as usize,
                                dst_port: dp as usize,
                            },
                        )
                        &&& final(self).in_targets@ == old(self).in_targets@
                        &&& final(self).out_sources@ == old(self).out_sources@
                        &&& final(self).eics@ == old(self).eics@
                        &&& final(self).eocs@ == old(self).eocs@
                        &&& final(self).same_but_couplings(*old(self))
                    }
                }),
                Err(AssemblyError::NoSuchChild) => {
                    &&& *final(self) == *old(self)
                    &&& !(has_name(child_names(old(self).children@), src@) && has_name(
                        child_names(old(self).children@),
                        dst@,
                    ))
                },
                Err(AssemblyError::NoSuchPort) => ({
                    let cn = child_names(old(self).children@);
                    let s = index_of_name(cn, src@);
                    let d = index_of_name(cn, dst@);
                    &&& *final(self) == *old(self)
                    &&& has_name(cn, src@)
                    &&& has_name(cn, dst@)
                    &&& !(has_name(decl_names(old(self).children@[s].out_decls@), src_port@)
                        && has_name(decl_names(old(self).children@[d].in_decls@), dst_port@))
                }),
                Err(AssemblyError::TypeMismatch) => ({
                    let cn = child_names(old(self).children@);
                    let s = index_of_name(cn, src@);
                    let d = index_of_name(cn, dst@);
                    let sons = decl_names(old(self).children@[s].out_decls@);
                    let dins = decl_names(old(self).children@[d].in_decls@);
                    let sp = index_of_name(sons, src_port@);
                    let dp = index_of_name(dins, dst_port@);
                    &&& *final(self) == *old(self)
                    &&& has_name(cn, src@)
                    &&& has_name(cn, dst@)
                    &&& has_name(sons, src_port@)
                    &&& has_name(dins, dst_port@)
                    &&& old(self).children@[s].out_decls@[sp].tag != old(
                        self,
                    ).children@[d].in_decls@[dp].tag
                }),
                Err(AssemblyError::DuplicateCoupling) => ({
                    let cn = child_names(old(self).children@);
                    let s = index_of_name(cn, src@);
                    let d = index_of_name(cn, dst@);
                    let sons = decl_names(old(self).children@[s].out_decls@);
                    let dins = decl_names(old(self).children@[d].in_decls@);
                    let sp = index_of_name(sons, src_port@);
                    let dp = index_of_name(dins, dst_port@);
                    &&& *final(self) == *old(self)
                    &&& old(self).ics@.contains(
                        IcKey {
                            src_child: s as usize,
                            src_port: sp as usize,
                            dst_child: d as usize,
                            dst_port: dp as usize,
                        },
                    )
                }),
                Err(_) => false,
            },
    {
        let src_s = src.to_owned();
        let dst_s = dst.to_owned();
        let s = match find_child(&self.children, &src_s) {
            None => {
                return Err(AssemblyError::NoSuchChild);
            },
            Some(s) => s,
        };
        let d = match find_child(&self.children, &dst_s) {
            None => {
                return Err(AssemblyError::NoSuchChild);
            },
            Some(d) => d,
        };
        proof {
            lemma_index_of_name(child_names(self.children@), src@, s as int);
            lemma_index_of_name(child_names(self.children@), dst@, d as int);
        }
        let src_port_s = src_port.to_owned();
        let dst_port_s = dst_port.to_owned();
        let sp = match find_decl(&self.children[s].out_decls, &src_port_s) {
            None => {
                return Err(AssemblyError::NoSuchPort);
            },
            Some(sp) => sp,
        };
        let dp = match find_decl(&self.children[d].in_decls, &dst_port_s) {
            None => {
                return Err(AssemblyError::NoSuchPort);
            },
            Some(dp) => dp,
        };
        proof {
            assert(child_wf(self.children@[s as int], self.models@));
            assert(child_wf(self.children@[d as int], self.models@));
            lemma_index_of_name(decl_names(self.children@[s as int].out_decls@), src_port@, sp as int);
            lemma_index_of_name(decl_names(self.children@[d as int].in_decls@), dst_port@, dp as int);
        }
        if self.children[s].out_decls[sp].tag != self.children[d].in_decls[dp].tag {
            return Err(AssemblyError::TypeMismatch);
        }
        let key = IcKey { src_child: s, src_port: sp, dst_child: d, dst_port: dp };
        if contains_ic(&self.ics, key) {
            return Err(AssemblyError::DuplicateCoupling);
        }
        let ghost srcs0 = self.children@[s as int].out_sources@[sp as int]@;
        let ghost dsts0 = self.children@[d as int].in_targets@[dp as int]@;
        let ghost tag0 = self.children@[s as int].out_decls@[sp as int].tag;
        let na = self.children[s].out_sources[sp].len();
        let nb = self.children[d].in_targets[dp].len();
        let mut a: usize = 0;
        while a < na
            invariant
                a <= na,
                s < self.children@.len(),
                d < self.children@.len(),
                sp < self.children@[s as int].out_sources@.len(),
                dp < self.children@[d as int].in_targets@.len(),
                na == srcs0.len(),
                nb == dsts0.len(),
                srcs0 == self.children@[s as int].out_sources@[sp as int]@,
                dsts0 == self.children@[d as int].in_targets@[dp as int]@,
                eps_wf_out(srcs0, self.models@, tag0),
                eps_wf_in(dsts0, self.models@, tag0),
                self.same_but_couplings(*old(self)),
                self.in_targets@ == old(self).in_targets@,
                self.out_sources@ == old(self).out_sources@,
                self.ics@ == old(self).ics@,
                self.eics@ == old(self).eics@,
                self.eocs@ == old(self).eocs@,
                self.routes@ == old(self).routes@ + cross_routes(srcs0.take(a as int), dsts0),
            decreases na - a,
        {
            let se = self.children[s].out_sources[sp][a];
            let mut b: usize = 0;
            while b < nb
                invariant
                    b <= nb,
                    a < na,
                    s < self.children@.len(),
                    d < self.children@.len(),
                    sp < self.children@[s as int].out_sources@.len(),
                    dp < self.children@[d as int].in_targets@.len(),
                    na == srcs0.len(),
                    nb == dsts0.len(),
                    srcs0 == self.children@[s as int].out_sources@[sp as int]@,
                    dsts0 == self.children@[d as int].in_targets@[dp as int]@,
                    se == srcs0[a as int],
                    eps_wf_out(srcs0, self.models@, tag0),
                    eps_wf_in(dsts0, self.models@, tag0),
                    self.same_but_couplings(*old(self)),
                    self.in_targets@ == old(self).in_targets@,
                    self.out_sources@ == old(self).out_sources@,
                    self.ics@ == old(self).ics@,
                    self.eics@ == old(self).eics@,
                    self.eocs@ == old(self).eocs@,
                    self.routes@ == old(self).routes@ + cross_routes(srcs0.take(a as int), dsts0)
                        + row_routes(srcs0[a as int], dsts0).take(b as int),
                decreases nb - b,
            {
                let de = self.children[d].in_targets[dp][b];
                self.routes.push(
                    Route {
                        src_model: se.model,
                        src_port: se.port,
                        dst_model: de.model,
                        dst_port: de.port,
                    },
                );
                proof {
                    assert(row_routes(srcs0[a as int], dsts0).take(b + 1 as int) =~= row_routes(
                        srcs0[a as int],
                        dsts0,
                    ).take(b as int).push(route_of(srcs0[a as int], dsts0[b as int])));
                }
                b = b + 1;
            }
            proof {
                assert(row_routes(srcs0[a as int], dsts0).take(nb as int) =~= row_routes(
                    srcs0[a as int],
                    dsts0,
                ));
                assert(srcs0.take(a + 1 as int).drop_last() =~= srcs0.take(a as int));
                assert(srcs0.take(a + 1 as int).last() == srcs0[a as int]);
                assert(cross_routes(srcs0.take(a + 1 as int), dsts0) == cross_routes(
                    srcs0.take(a as int),
                    dsts0,
                ) + row_routes(srcs0[a as int], dsts0));
            }
            a = a + 1;
        }
        proof {
            assert(srcs0.take(na as int) =~= srcs0);
        }
        self.ics.push(key);
        proof {
            assert forall|r2: int| 0 <= r2 < self.routes@.len() implies route_wf(
                #[trigger] self.routes@[r2],
                self.models@,
            ) by {
                if r2 < old(self).routes@.len() {
                    assert(self.routes@[r2] == old(self).routes@[r2]);
                    assert(route_wf(old(self).routes@[r2], old(self).models@));
                } else {
                    let k = r2 - old(self).routes@.len();
                    lemma_cross_routes_wf(srcs0, dsts0, self.models@, tag0);
                    assert(self.routes@[r2] == cross_routes(srcs0, dsts0)[k]);
                }
            }
        }
        Ok(())
    }

    /// Register an external input coupling: values arriving on this scope's
    /// own input port `own_port` are forwarded to child `child` on its input
    /// port `child_port`.  The child's resolved targets for that port join
    /// the own port's target set.  Fails if a name is unknown, if the port
    /// tags differ, or if exactly this coupling was already declared.
    pub fn add_eic(&mut self, own_port: &str, child: &str, child_port: &str) -> (r: Result<
        (),
        AssemblyError,
    >)
        requires
            old(self).wf(),
        ensures
            final(self).wf(),
            match r {
                Ok(()) => ({
                    let cn = child_names(old(self).children@);
                    let c = index_of_name(cn, child@);
                    let owns = decl_names(old(self).in_decls@);
                    let own = index_of_name(owns, own_port@);
                    &&& has_name(cn, child@)
                    &&& has_name(owns, own_port@)
                    &&& {
                        let cins = decl_names(old(self).children@[c].in_decls@);
                        let cp = index_of_name(cins, child_port@);
                        &&& has_name(cins, child_port@)
                        &&& old(self).in_decls@[own].tag == old(self).children@[c].in_decls@[cp].tag
                        &&& !old(self).eics@.contains(
                            ExtKey {
                                own_port: own as usize,
                                child: c as usize,
                                child_port: cp as usize,
                            },
                        )
                        &&& final(self).in_targets@.len() == old(self).in_targets@.len()
                        &&& final(self).in_targets@[own]@ == old(self).in_targets@[own]@ + old(
                            self,
                        ).children@[c].in_targets@[cp]@
                        &&& forall|k: int|
                            0 <= k < old(self).in_targets@.len() && k != own
                                ==> final(self).in_targets@[k] == old(self).in_targets@[k]
                        &&& final(self).eics@ == old(self).eics@.push(
                            ExtKey {
                                own_port: own as usize,
                                child: c as usize,
                                child_port: cp as usize,
                            },
                        )
                        &&& final(self).routes@ == old(self).routes@
                        &&& final(self).out_sources@ == old(self).out_sources@
                        &&& final(self).ics@ == old(self).ics@
                        &&& final(self).eocs@ == old(self).eocs@
                        &&& final(self).same_but_couplings(*old(self))
                    }
                }),
                Err(AssemblyError::NoSuchChild) => {
                    &&& *final(self) == *old(self)
                    &&& !has_name(child_names(old(self).children@), child@)
                },
                Err(AssemblyError::NoSuchPort) => ({
                    let cn = child_names(old(self).children@);
                    let c = index_of_name(cn, child@);
                    &&& *final(self) == *old(self)
                    &&& has_name(cn, child@)
                    &&& !(has_name(decl_names(old(self).in_decls@), own_port@) && has_name(
                        decl_names(old(self).children@[c].in_decls@),
                        child_port@,
                    ))
                }),
                Err(AssemblyError::TypeMismatch) => ({
                    let cn = child_names(old(self).children@);
                    let c = index_of_name(cn, child@);
                    let own = index_of_name(decl_names(old(self).in_decls@), own_port@);
                    let cp = index_of_name(decl_names(old(self).children@[c].in_decls@), child_port@);
                    &&& *final(self) == *old(self)
                    &&& has_name(cn, child@)
                    &&& has_name(decl_names(old(self).in_decls@), own_port@)
                    &&& has_name(decl_names(old(self).children@[c].in_decls@), child_port@)
                    &&& old(self).in_decls@[own].tag != old(self).children@[c].in_decls@[cp].tag
                }),
                Err(AssemblyError::DuplicateCoupling) => ({
                    let cn = child_names(old(self).children@);
                    let c = index_of_name(cn, child@);
                    let own = index_of_name(decl_names(old(self).in_decls@), own_port@);
                    let cp = index_of_name(decl_names(old(self).children@[c].in_decls@), child_port@);
                    &&& *final(self) == *old(self)
                    &&& old(self).eics@.contains(
                        ExtKey {
                            own_port: own as usize,
                            child: c as usize,
                            child_port: cp as usize,
                        },
                    )
                }),
                Err(_) => false,
            },
    {
        let child_s = child.to_owned();
        let c = match find_child(&self.children, &child_s) {
            None => {
                return Err(AssemblyError::NoSuchChild);
            },
            Some(c) => c,
        };
        proof {
            lemma_index_of_name(child_names(self.children@), child@, c as int);
        }
        let own_s = own_port.to_owned();
        let child_port_s = child_port.to_owned();
        let own = match find_decl(&self.in_decls, &own_s) {
            None => {
                return Err(AssemblyError::NoSuchPort);
            },
            Some(own) => own,
        };
        let cp = match find_decl(&self.children[c].in_decls, &child_port_s) {
            None => {
                return Err(AssemblyError::NoSuchPort);
            },
            Some(cp) => cp,
        };
        proof {
            assert(child_wf(self.children@[c as int], self.models@));
            lemma_index_of_name(decl_names(self.in_decls@), own_port@, own as int);
            lemma_index_of_name(decl_names(self.children@[c as int].in_decls@), child_port@, cp as int);
        }
        if self.in_decls[own].tag != self.children[c].in_decls[cp].tag {
            return Err(AssemblyError::TypeMismatch);
        }
        let key = ExtKey { own_port: own, child: c, child_port: cp };
        if contains_ext(&self.eics, key) {
            return Err(AssemblyError::DuplicateCoupling);
        }
        let ghost eps0 = self.children@[c as int].in_targets@[cp as int]@;
        let ghost tag0 = self.in_decls@[own as int].tag;
        let adds = copy_endpoints(&self.children[c].in_targets[cp]);
        let m = adds.len();
        let mut j: usize = 0;
        while j < m
            invariant
                j <= m,
                own < self.in_targets@.len(),
                m == eps0.len(),
                adds@ == eps0,
                eps_wf_in(eps0, self.models@, tag0),
                self.same_but_couplings(*old(self)),
                self.routes@ == old(self).routes@,
                self.out_sources@ == old(self).out_sources@,
                self.ics@ == old(self).ics@,
                self.eics@ == old(self).eics@,
                self.eocs@ == old(self).eocs@,
                self.in_targets@.len() == old(self).in_targets@.len(),
                self.in_targets@[own as int]@ == old(self).in_targets@[own as int]@ + eps0.take(
                    j as int,
                ),
                forall|k: int|
                    0 <= k < old(self).in_targets@.len() && k != own ==> self.in_targets@[k] == old(
                        self,
                    ).in_targets@[k],
            decreases m - j,
        {
            push_into(&mut self.in_targets, own, adds[j]);
            proof {
                assert(old(self).in_targets@[own as int]@ + eps0.take(j + 1 as int) =~= (old(
                    self,
                ).in_targets@[own as int]@ + eps0.take(j as int)).push(eps0[j as int]));
            }
            j = j + 1;
        }
        proof {
            assert(eps0.take(m as int) =~= eps0);
        }
        self.eics.push(key);
        proof {
            assert forall|pp: int| 0 <= pp < self.in_decls@.len() implies eps_wf_in(
                (#[trigger] self.in_targets@[pp])@,
                self.models@,
                self.in_decls@[pp].tag,
            ) by {
                assert(eps_wf_in(old(self).in_targets@[pp]@, old(self).models@, old(self).in_decls@[pp].tag));
                if pp == own {
                    let eps = self.in_targets@[pp]@;
                    assert forall|kk: int| 0 <= kk < eps.len() implies {
                        let e = #[trigger] eps[kk];
                        &&& e.model < self.models@.len()
                        &&& e.port < self.models@[e.model as int].in_decls@.len()
                        &&& self.models@[e.model as int].in_decls@[e.port as int].tag
                            == self.in_decls@[pp].tag
                    } by {
                        if kk < old(self).in_targets@[pp]@.len() {
                            assert(eps[kk] == old(self).in_targets@[pp]@[kk]);
                        } else {
                            assert(eps[kk] == eps0[kk - old(self).in_targets@[pp]@.len()]);
                        }
                    }
                }
            }
        }
        Ok(())
    }

    /// Register an external output coupling: values emitted by child
    /// `child` on its output port `child_port` appear on this scope's own
    /// output port `own_port`.  The child's resolved sources for that port
    /// join the own port's source set.  Fails if a name is unknown, if the
    /// port tags differ, or if exactly this coupling was already declared.
    pub fn add_eoc(&mut self, child: &str, child_port: &str, own_port: &str) -> (r: Result<
        (),
        AssemblyError,
    >)
        requires
            old(self).wf(),
        ensures
            final(self).wf(),
            match r {
                Ok(()) => ({
                    let cn = child_names(old(self).children@);
                    let c = index_of_name(cn, child@);
                    let owns = decl_names(old(self).out_decls@);
                    let own = index_of_name(owns, own_port@);
                    &&& has_name(cn, child@)
                    &&& has_name(owns, own_port@)
                    &&& {
                        let couts = decl_names(old(self).children@[c].out_decls@);
                        let cp = index_of_name(couts, child_port@);
                        &&& has_name(couts, child_port@)
                        &&& old(self).out_decls@[own].tag == old(self).children@[c].out_decls@[cp].tag
                        &&& !old(self).eocs@.contains(
                            ExtKey {
                                own_port: own as usize,
                                child: c as usize,
                                child_port: cp as usize,
                            },
                        )
                        &&& final(self).out_sources@.len() == old(self).out_sources@.len()
                        &&& final(self).out_sources@[own]@ == old(self).out_sources@[own]@ + old(
                            self,
                        ).children@[c].out_sources@[cp]@
                        &&& forall|k: int|
                            0 <= k < old(self).out_sources@.len() && k != own
                                ==> final(self).out_sources@[k] == old(self).out_sources@[k]
                        &&& final(self).eocs@ == old(self).eocs@.push(
                            ExtKey {
                                own_port: own as usize,
                                child: c as usize,
                                child_port: cp as usize,
                            },
                        )
                        &&& final(self).routes@ == old(self).routes@
                        &&& final(self).in_targets@ == old(self).in_targets@
                        &&& final(self).ics@ == old(self).ics@
                        &&& final(self).eics@ == old(self).eics@
                        &&& final(self).same_but_couplings(*old(self))
                    }
                }),
                Err(AssemblyError::NoSuchChild) => {
                    &&& *final(self) == *old(self)
                    &&& !has_name(child_names(old(self).children@), child@)
                },
                Err(AssemblyError::NoSuchPort) => ({
                    let cn = child_names(old(self).children@);
                    let c = index_of_name(cn, child@);
                    &&& *final(self) == *old(self)
                    &&& has_name(cn, child@)
                    &&& !(has_name(decl_names(old(self).out_decls@), own_port@) && has_name(
                        decl_names(old(self).children@[c].out_decls@),
                        child_port@,
                    ))
                }),
                Err(AssemblyError::TypeMismatch) => ({
                    let cn = child_names(old(self).children@);
                    let c = index_of_name(cn, child@);
                    let own = index_of_name(decl_names(old(self).out_decls@), own_port@);
                    let cp = index_of_name(decl_names(old(self).children@[c].out_decls@), child_port@);
                    &&& *final(self) == *old(self)
                    &&& has_name(cn, child@)
                    &&& has_name(decl_names(old(self).out_decls@), own_port@)
                    &&& has_name(decl_names(old(self).children@[c].out_decls@), child_port@)
                    &&& old(self).out_decls@[own].tag != old(self).children@[c].out_decls@[cp].tag
                }),
                Err(AssemblyError::DuplicateCoupling) => ({
                    let cn = child_names(old(self).children@);
                    let c = index_of_name(cn, child@);
                    let own = index_of_name(decl_names(old(self).out_decls@), own_port@);
                    let cp = index_of_name(decl_names(old(self).children@[c].out_decls@), child_port@);
                    &&& *final(self) == *old(self)
                    &&& old(self).eocs@.contains(
                        ExtKey {
                            own_port: own as usize,
                            child: c as usize,
                            child_port: cp as usize,
                        },
                    )
                }),
                Err(_) => false,
            },
    {
        let child_s = child.to_owned();
        let c = match find_child(&self.children, &child_s) {
            None => {
                return Err(AssemblyError::NoSuchChild);
            },
            Some(c) => c,
        };
        proof {
            lemma_index_of_name(child_names(self.children@), child@, c as int);
        }
        let own_s = own_port.to_owned();
        let child_port_s = child_port.to_owned();
        let own = match find_decl(&self.out_decls, &own_s) {
            None => {
                return Err(AssemblyError::NoSuchPort);
            },
            Some(own) => own,
        };
        let cp = match find_decl(&self.children[c].out_decls, &child_port_s) {
            None => {
                return Err(AssemblyError::NoSuchPort);
            },
            Some(cp) => cp,
        };
        proof {
            assert(child_wf(self.children@[c as int], self.models@));
            lemma_index_of_name(decl_names(self.out_decls@), own_port@, own as int);
            lemma_index_of_name(decl_names(self.children@[c as int].out_decls@), child_port@, cp as int);
        }
        if self.out_decls[own].tag != self.children[c].out_decls[cp].tag {
            return Err(AssemblyError::TypeMismatch);
        }
        let key = ExtKey { own_port: own, child: c, child_port: cp };
        if contains_ext(&self.eocs, key) {
            return Err(AssemblyError::DuplicateCoupling);
        }
        let ghost eps0 = self.children@[c as int].out_sources@[cp as int]@;
        let ghost tag0 = self.out_decls@[own as int].tag;
        let adds = copy_endpoints(&self.children[c].out_sources[cp]);
        let m = adds.len();
        let mut j: usize = 0;
        while j < m
            invariant
                j <= m,
                own < self.out_sources@.len(),
                m == eps0.len(),
                adds@ == eps0,
                eps_wf_out(eps0, self.models@, tag0),
                self.same_but_couplings(*old(self)),
                self.routes@ == old(self).routes@,
                self.in_targets@ == old(self).in_targets@,
                self.ics@ == old(self).ics@,
                self.eics@ == old(self).eics@,
                self.eocs@ == old(self).eocs@,
                self.out_sources@.len() == old(self).out_sources@.len(),
                self.out_sources@[own as int]@ == old(self).out_sources@[own as int]@ + eps0.take(
                    j as int,
                ),
                forall|k: int|
                    0 <= k < old(self).out_sources@.len() && k != own ==> self.out_sources@[k]
                        == old(self).out_sources@[k],
            decreases m - j,
        {
            push_into(&mut self.out_sources, own, adds[j]);
            proof {
                assert(old(self).out_sources@[own as int]@ + eps0.take(j + 1 as int) =~= (old(
                    self,
                ).out_sources@[own as int]@ + eps0.take(j as int)).push(eps0[j as int]));
            }
            j = j + 1;
        }
        proof {
            assert(eps0.take(m as int) =~= eps0);
        }
        self.eocs.push(key);
        proof {
            assert forall|qq: int| 0 <= qq < self.out_decls@.len() implies eps_wf_out(
                (#[trigger] self.out_sources@[qq])@,
                self.models@,
                self.out_decls@[qq].tag,
            ) by {
                assert(eps_wf_out(old(self).out_sources@[qq]@, old(self).models@, old(self).out_decls@[qq].tag));
                if qq == own {
                    let eps = self.out_sources@[qq]@;
                    assert forall|kk: int| 0 <= kk < eps.len() implies {
                        let e = #[trigger] eps[kk];
                        &&& e.model < self.models@.len()
                        &&& e.port < self.models@[e.model as int].out_decls@.len()
                        &&& self.models@[e.model as int].out_decls@[e.port as int].tag
                            == self.out_decls@[qq].tag
                    } by {
                        if kk < old(self).out_sources@[qq]@.len() {
                            assert(eps[kk] == old(self).out_sources@[qq]@[kk]);
                        } else {
                            assert(eps[kk] == eps0[kk - old(self).out_sources@[qq]@.len()]);
                        }
                    }
                }
            }
        }
        Ok(())
    }

    /// An empty coupled model with the given name: no children, no ports,
    /// no couplings.
    pub fn new(name: &str) -> (c: Self)
        ensures
            c.wf(),
            c.name@ == name@,
            c.models@.len() == 0,
            c.routes@.len() == 0,
            c.in_decls@.len() == 0,
            c.out_decls@.len() == 0,
            c.children@.len() == 0,
            c.ics@.len() == 0,
            c.eics@.len() == 0,
            c.eocs@.len() == 0,
    {
        Coupled {
            name: name.to_owned(),
            models: Vec::new(),
            routes: Vec::new(),
            in_decls: Vec::new(),
            out_decls: Vec::new(),
            in_targets: Vec::new(),
            out_sources: Vec::new(),
            children: Vec::new(),
            ics: Vec::new(),
            eics: Vec::new(),
            eocs: Vec::new(),
        }
    }
}

} // verus!
