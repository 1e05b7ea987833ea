//! The root coordinator: the abstract simulator.
//!
//! A finished coupled model is handed to exactly one coordinator for the
//! duration of a run.  The coordinator drives the flattened structure
//! through discrete cycles; each cycle
//!
//! 1. computes the next event time, the least scheduled time over all
//!    models (values injected from outside are due immediately, at the
//!    current clock);
//! 2. takes as imminent every model scheduled exactly then;
//! 3. collects the imminent models' outputs — all of them computed from the
//!    state before any transition of the cycle — and routes every value
//!    through the coupling table, fanning out to every destination bag and
//!    to the root output record;
//! 4. transitions every model that is imminent or has input: internal
//!    effects first, then external effects, for a model that is both;
//! 5. advances the transitioned models' clocks and the global clock;
//! 6. clears every port.
//!
//! The timing invariant `t_last ≤ clock ≤ t_next` holds for every model
//! between cycles, with `t_next` always the model's last transition time
//! plus its current time advance.

use crate::atomic::AtomicModel;
use crate::coupled::{entry_wf, Coupled, Endpoint, Route};
use crate::port::{bags_view, some_input, Msg, Port};
use crate::time::Time;
use vstd::prelude::*;

verus! {

/// What one call to `step` did.
#[derive(Clone, Copy, Debug, PartialEq, Eq, Structural)]
pub enum StepOutcome {
    /// A cycle was executed at the given simulated time.
    Advanced(u64),
    /// No model has anything scheduled and no input is pending: the run is
    /// over.
    Finished,
}

/// A route's indices lie within the arena and its models' declared ports.
pub open spec fn route_valid<M: AtomicModel>(r: Route, models: Seq<M>) -> bool {
    &&& r.src_model < models.len()
    &&& r.src_port < models[r.src_model as int].output_decls().len()
    &&& r.dst_model < models.len()
    &&& r.dst_port < models[r.dst_model as int].input_decls().len()
}

/// Every endpoint names an existing atomic input port.
pub open spec fn eps_valid_in<M: AtomicModel>(eps: Seq<Endpoint>, models: Seq<M>) -> bool {
    forall|k: int|
        0 <= k < eps.len() ==> {
            let e = #[trigger] eps[k];
            e.model < models.len() && e.port < models[e.model as int].input_decls().len()
        }
}

/// Every endpoint names an existing atomic output port.
pub open spec fn eps_valid_out<M: AtomicModel>(eps: Seq<Endpoint>, models: Seq<M>) -> bool {
    forall|k: int|
        0 <= k < eps.len() ==> {
            let e = #[trigger] eps[k];
            e.model < models.len() && e.port < models[e.model as int].output_decls().len()
        }
}

/// The least time in the first `k` entries of `s` (`Never` over none).
pub open spec fn min_upto(s: Seq<Time>, k: int) -> Time
    decreases k,
{
    if k <= 0 {
        Time::Never
    } else {
        min_upto(s, k - 1).min_spec(s[k - 1])
    }
}

/// The least time in `s`, `Never` if `s` is empty.
pub open spec fn seq_min_time(s: Seq<Time>) -> Time {
    min_upto(s, s.len() as int)
}

/// The least of the first `k` entries is below each of them.
pub proof fn lemma_min_upto_le(s: Seq<Time>, k: int, i: int)
    requires
        0 <= i < k <= s.len(),
    ensures
        min_upto(s, k).le_spec(s[i]),
    decreases k,
{
    if i < k - 1 {
        lemma_min_upto_le(s, k - 1, i);
    }
}

/// A lower bound of the first `k` entries bounds their least value.
pub proof fn lemma_min_upto_bound(s: Seq<Time>, k: int, b: Time)
    requires
        0 <= k <= s.len(),
        forall|i: int| 0 <= i < k ==> b.le_spec(#[trigger] s[i]),
    ensures
        b.le_spec(min_upto(s, k)),
    decreases k,
{
    if k > 0 {
        lemma_min_upto_bound(s, k - 1, b);
    }
}

/// The per-model, per-port input bags of a whole arena.
pub open spec fn bags3<V>(b: Seq<Vec<Port<V>>>) -> Seq<Seq<Seq<V>>> {
    Seq::new(b.len(), |i: int| bags_view(b[i]@))
}

/// One value appended to the bag of model `m`, port `p`.
pub open spec fn push_bag<V>(b: Seq<Seq<Seq<V>>>, m: int, p: int, v: V) -> Seq<Seq<Seq<V>>> {
    b.update(m, b[m].update(p, b[m][p].push(v)))
}

/// Two bag families of the same shape: same models, same port counts.
pub open spec fn same_shape<V>(a: Seq<Seq<Seq<V>>>, b: Seq<Seq<Seq<V>>>) -> bool {
    a.len() == b.len() && forall|i: int| 0 <= i < a.len() ==> a[i].len() == (#[trigger] b[i]).len()
}

/// Every route's destination exists in the bag family.
pub open spec fn routes_fit<V>(routes: Seq<Route>, b: Seq<Seq<Seq<V>>>) -> bool {
    forall|r: int|
        0 <= r < routes.len() ==> {
            let rr = #[trigger] routes[r];
            rr.dst_model < b.len() && rr.dst_port < b[rr.dst_model as int].len()
        }
}

/// Every endpoint exists in the bag family.
pub open spec fn eps_fit<V>(eps: Seq<Endpoint>, b: Seq<Seq<Seq<V>>>) -> bool {
    forall|k: int|
        0 <= k < eps.len() ==> {
            let e = #[trigger] eps[k];
            e.model < b.len() && e.port < b[e.model as int].len()
        }
}

/// `msg`, emitted by model `src`, delivered along the first `k` routes.
pub open spec fn deliver_via_routes<V>(
    b: Seq<Seq<Seq<V>>>,
    routes: Seq<Route>,
    src: int,
    msg: Msg<V>,
    k: int,
) -> Seq<Seq<Seq<V>>>
    decreases k,
{
    if k <= 0 {
        b
    } else {
        let b1 = deliver_via_routes(b, routes, src, msg, k - 1);
        let r = routes[k - 1];
        if r.src_model == src && r.src_port == msg.port {
            push_bag(b1, r.dst_model as int, r.dst_port as int, msg.value)
        } else {
            b1
        }
    }
}

/// The first `k` messages of model `src`, each delivered along all routes.
pub open spec fn deliver_msgs<V>(
    b: Seq<Seq<Seq<V>>>,
    routes: Seq<Route>,
    src: int,
    msgs: Seq<Msg<V>>,
    k: int,
) -> Seq<Seq<Seq<V>>>
    decreases k,
{
    if k <= 0 {
        b
    } else {
        deliver_via_routes(
            deliver_msgs(b, routes, src, msgs, k - 1),
            routes,
            src,
            msgs[k - 1],
            routes.len() as int,
        )
    }
}

/// The outputs of the imminent models among the first `k`, delivered in
/// model order.
pub open spec fn deliver_outputs<M: AtomicModel>(
    b: Seq<Seq<Seq<M::Value>>>,
    routes: Seq<Route>,
    models: Seq<M>,
    t_next: Seq<Time>,
    tn: Time,
    k: int,
) -> Seq<Seq<Seq<M::Value>>>
    decreases k,
{
    if k <= 0 {
        b
    } else {
        let b1 = deliver_outputs(b, routes, models, t_next, tn, k - 1);
        if t_next[k - 1] == tn {
            deliver_msgs(
                b1,
                routes,
                k - 1,
                models[k - 1].output_spec(),
                models[k - 1].output_spec().len() as int,
            )
        } else {
            b1
        }
    }
}

/// One injected value pushed to the first `k` endpoints.
pub open spec fn inject_value_eps<V>(
    b: Seq<Seq<Seq<V>>>,
    eps: Seq<Endpoint>,
    v: V,
    k: int,
) -> Seq<Seq<Seq<V>>>
    decreases k,
{
    if k <= 0 {
        b
    } else {
        let b1 = inject_value_eps(b, eps, v, k - 1);
        push_bag(b1, eps[k - 1].model as int, eps[k - 1].port as int, v)
    }
}

/// The first `k` injected values of one root port, each fanned out to all
/// its targets.
pub open spec fn inject_values<V>(
    b: Seq<Seq<Seq<V>>>,
    eps: Seq<Endpoint>,
    vals: Seq<V>,
    k: int,
) -> Seq<Seq<Seq<V>>>
    decreases k,
{
    if k <= 0 {
        b
    } else {
        inject_value_eps(inject_values(b, eps, vals, k - 1), eps, vals[k - 1], eps.len() as int)
    }
}

/// The staged injections of the first `k` root input ports, delivered.
pub open spec fn inject_ports<V>(
    b: Seq<Seq<Seq<V>>>,
    targets: Seq<Vec<Endpoint>>,
    pend: Seq<Port<V>>,
    k: int,
) -> Seq<Seq<Seq<V>>>
    decreases k,
{
    if k <= 0 {
        b
    } else {
        inject_values(
            inject_ports(b, targets, pend, k - 1),
            targets[k - 1]@,
            pend[k - 1]@,
            pend[k - 1]@.len() as int,
        )
    }
}

/// `msg`, emitted by model `src`, recorded once for each matching source
/// among the first `k` of a root output port.
pub open spec fn collect_sources<V>(
    out: Seq<V>,
    srcs: Seq<Endpoint>,
    src: int,
    msg: Msg<V>,
    k: int,
) -> Seq<V>
    decreases k,
{
    if k <= 0 {
        out
    } else {
        let o1 = collect_sources(out, srcs, src, msg, k - 1);
        if srcs[k - 1].model == src && srcs[k - 1].port == msg.port {
            o1.push(msg.value)
        } else {
            o1
        }
    }
}

/// The first `k` messages of model `src`, each recorded at a root output
/// port.
pub open spec fn collect_msgs<V>(
    out: Seq<V>,
    srcs: Seq<Endpoint>,
    src: int,
    msgs: Seq<Msg<V>>,
    k: int,
) -> Seq<V>
    decreases k,
{
    if k <= 0 {
        out
    } else {
        collect_sources(
            collect_msgs(out, srcs, src, msgs, k - 1),
            srcs,
            src,
            msgs[k - 1],
            srcs.len() as int,
        )
    }
}

/// What a root output port records from the imminent models among the
/// first `k`, in model order.
pub open spec fn collect_outputs<M: AtomicModel>(
    out: Seq<M::Value>,
    srcs: Seq<Endpoint>,
    models: Seq<M>,
    t_next: Seq<Time>,
    tn: Time,
    k: int,
) -> Seq<M::Value>
    decreases k,
{
    if k <= 0 {
        out
    } else {
        let o1 = collect_outputs(out, srcs, models, t_next, tn, k - 1);
        if t_next[k - 1] == tn {
            collect_msgs(
                o1,
                srcs,
                k - 1,
                models[k - 1].output_spec(),
                models[k - 1].output_spec().len() as int,
            )
        } else {
            o1
        }
    }
}

/// Pushing into an existing bag preserves the family's shape.
pub proof fn lemma_push_bag_shape<V>(b: Seq<Seq<Seq<V>>>, m: int, p: int, v: V)
    requires
        0 <= m < b.len(),
        0 <= p < b[m].len(),
    ensures
        same_shape(b, push_bag(b, m, p, v)),
{
}

/// Delivering one message preserves the family's shape.
pub proof fn lemma_deliver_via_routes_shape<V>(
    b: Seq<Seq<Seq<V>>>,
    routes: Seq<Route>,
    src: int,
    msg: Msg<V>,
    k: int,
)
    requires
        0 <= k <= routes.len(),
        routes_fit(routes, b),
    ensures
        same_shape(b, deliver_via_routes(b, routes, src, msg, k)),
        routes_fit(routes, deliver_via_routes(b, routes, src, msg, k)),
    decreases k,
{
    if k > 0 {
        lemma_deliver_via_routes_shape(b, routes, src, msg, k - 1);
    }
}

/// Delivering a message list preserves the family's shape.
pub proof fn lemma_deliver_msgs_shape<V>(
    b: Seq<Seq<Seq<V>>>,
    routes: Seq<Route>,
    src: int,
    msgs: Seq<Msg<V>>,
    k: int,
)
    requires
        0 <= k <= msgs.len(),
        routes_fit(routes, b),
    ensures
        same_shape(b, deliver_msgs(b, routes, src, msgs, k)),
        routes_fit(routes, deliver_msgs(b, routes, src, msgs, k)),
    decreases k,
{
    if k > 0 {
        lemma_deliver_msgs_shape(b, routes, src, msgs, k - 1);
        lemma_deliver_via_routes_shape(
            deliver_msgs(b, routes, src, msgs, k - 1),
            routes,
            src,
            msgs[k - 1],
            routes.len() as int,
        );
    }
}

/// Delivering all imminent outputs preserves the family's shape.
pub proof fn lemma_deliver_outputs_shape<M: AtomicModel>(
    b: Seq<Seq<Seq<M::Value>>>,
    routes: Seq<Route>,
    models: Seq<M>,
    t_next: Seq<Time>,
    tn: Time,
    k: int,
)
    requires
        0 <= k <= models.len(),
        routes_fit(routes, b),
    ensures
        same_shape(b, deliver_outputs(b, routes, models, t_next, tn, k)),
        routes_fit(routes, deliver_outputs(b, routes, models, t_next, tn, k)),
    decreases k,
{
    if k > 0 {
        lemma_deliver_outputs_shape(b, routes, models, t_next, tn, k - 1);
        if t_next[k - 1] == tn {
            lemma_deliver_msgs_shape(
                deliver_outputs(b, routes, models, t_next, tn, k - 1),
                routes,
                k - 1,
                models[k - 1].output_spec(),
                models[k - 1].output_spec().len() as int,
            );
        }
    }
}

/// Injecting one value preserves the family's shape.
pub proof fn lemma_inject_value_eps_shape<V>(b: Seq<Seq<Seq<V>>>, eps: Seq<Endpoint>, v: V, k: int)
    requires
        0 <= k <= eps.len(),
        eps_fit(eps, b),
    ensures
        same_shape(b, inject_value_eps(b, eps, v, k)),
        eps_fit(eps, inject_value_eps(b, eps, v, k)),
    decreases k,
{
    if k > 0 {
        lemma_inject_value_eps_shape(b, eps, v, k - 1);
    }
}

/// Injecting one port's values preserves the family's shape.
pub proof fn lemma_inject_values_shape<V>(
    b: Seq<Seq<Seq<V>>>,
    eps: Seq<Endpoint>,
    vals: Seq<V>,
    k: int,
)
    requires
        0 <= k <= vals.len(),
        eps_fit(eps, b),
    ensures
        same_shape(b, inject_values(b, eps, vals, k)),
        eps_fit(eps, inject_values(b, eps, vals, k)),
    decreases k,
{
    if k > 0 {
        lemma_inject_values_shape(b, eps, vals, k - 1);
        lemma_inject_value_eps_shape(
            inject_values(b, eps, vals, k - 1),
            eps,
            vals[k - 1],
            eps.len() as int,
        );
    }
}

/// Fitting depends only on shape.
pub proof fn lemma_fit_same_shape<V>(a: Seq<Seq<Seq<V>>>, b: Seq<Seq<Seq<V>>>)
    requires
        same_shape(a, b),
    ensures
        forall|routes: Seq<Route>| routes_fit(routes, a) ==> #[trigger] routes_fit(routes, b),
        forall|eps: Seq<Endpoint>| eps_fit(eps, a) ==> #[trigger] eps_fit(eps, b),
{
}

/// Shape agreement is transitive.
pub proof fn lemma_same_shape_trans<V>(a: Seq<Seq<Seq<V>>>, b: Seq<Seq<Seq<V>>>, c: Seq<Seq<Seq<V>>>)
    requires
        same_shape(a, b),
        same_shape(b, c),
    ensures
        same_shape(a, c),
{
}

/// Injecting every staged value preserves the family's shape.
pub proof fn lemma_inject_ports_shape<V>(
    b: Seq<Seq<Seq<V>>>,
    targets: Seq<Vec<Endpoint>>,
    pend: Seq<Port<V>>,
    k: int,
)
    requires
        0 <= k <= targets.len(),
        k <= pend.len(),
        forall|p: int| 0 <= p < k ==> eps_fit((#[trigger] targets[p])@, b),
    ensures
        same_shape(b, inject_ports(b, targets, pend, k)),
    decreases k,
{
    if k > 0 {
        lemma_inject_ports_shape(b, targets, pend, k - 1);
        let b1 = inject_ports(b, targets, pend, k - 1);
        lemma_fit_same_shape(b, b1);
        assert(eps_fit(targets[k - 1]@, b1));
        lemma_inject_values_shape(b1, targets[k - 1]@, pend[k - 1]@, pend[k - 1]@.len() as int);
    }
}

/// Values already in a bag survive any further deliveries along routes.
pub proof fn lemma_deliver_via_routes_keeps<V>(
    b: Seq<Seq<Seq<V>>>,
    routes: Seq<Route>,
    src: int,
    msg: Msg<V>,
    k: int,
    m: int,
    p: int,
    v: V,
)
    requires
        0 <= k <= routes.len(),
        0 <= m < b.len(),
        0 <= p < b[m].len(),
        b[m][p].contains(v),
        routes_fit(routes, b),
    ensures
        deliver_via_routes(b, routes, src, msg, k)[m][p].contains(v),
    decreases k,
{
    if k > 0 {
        lemma_deliver_via_routes_keeps(b, routes, src, msg, k - 1, m, p, v);
        lemma_deliver_via_routes_shape(b, routes, src, msg, k - 1);
        let b1 = deliver_via_routes(b, routes, src, msg, k - 1);
        let r = routes[k - 1];
        if r.src_model == src && r.src_port == msg.port {
            let old_bag = b1[m][p];
            let idx = choose|x: int| 0 <= x < old_bag.len() && old_bag[x] == v;
            let nb = push_bag(b1, r.dst_model as int, r.dst_port as int, msg.value);
            assert(nb[m][p][idx] == v);
        }
    }
}

/// Values already in a bag survive the delivery of a message list.
pub proof fn lemma_deliver_msgs_keeps<V>(
    b: Seq<Seq<Seq<V>>>,
    routes: Seq<Route>,
    src: int,
    msgs: Seq<Msg<V>>,
    k: int,
    m: int,
    p: int,
    v: V,
)
    requires
        0 <= k <= msgs.len(),
        0 <= m < b.len(),
        0 <= p < b[m].len(),
        b[m][p].contains(v),
        routes_fit(routes, b),
    ensures
        deliver_msgs(b, routes, src, msgs, k)[m][p].contains(v),
    decreases k,
{
    if k > 0 {
        lemma_deliver_msgs_keeps(b, routes, src, msgs, k - 1, m, p, v);
        lemma_deliver_msgs_shape(b, routes, src, msgs, k - 1);
        lemma_deliver_via_routes_keeps(
            deliver_msgs(b, routes, src, msgs, k - 1),
            routes,
            src,
            msgs[k - 1],
            routes.len() as int,
            m,
            p,
            v,
        );
    }
}

/// Delivering a message puts its value in the destination bag of every
/// matching route.
pub proof fn lemma_deliver_via_routes_complete<V>(
    b: Seq<Seq<Seq<V>>>,
    routes: Seq<Route>,
    src: int,
    msg: Msg<V>,
    k: int,
    j: int,
)
    requires
        0 <= j < k <= routes.len(),
        routes[j].src_model == src,
        routes[j].src_port == msg.port,
        routes_fit(routes, b),
    ensures
        deliver_via_routes(b, routes, src, msg, k)[routes[j].dst_model as int][routes[j].dst_port as int].contains(
            msg.value,
        ),
    decreases k,
{
    let r = routes[j];
    if j == k - 1 {
        lemma_deliver_via_routes_shape(b, routes, src, msg, k - 1);
        let b1 = deliver_via_routes(b, routes, src, msg, k - 1);
        let nb = push_bag(b1, r.dst_model as int, r.dst_port as int, msg.value);
        assert(nb[r.dst_model as int][r.dst_port as int].last() == msg.value);
    } else {
        lemma_deliver_via_routes_complete(b, routes, src, msg, k - 1, j);
        lemma_deliver_via_routes_shape(b, routes, src, msg, k - 1);
        let b1 = deliver_via_routes(b, routes, src, msg, k - 1);
        let rk = routes[k - 1];
        if rk.src_model == src && rk.src_port == msg.port {
            let old_bag = b1[r.dst_model as int][r.dst_port as int];
            let idx = choose|x: int| 0 <= x < old_bag.len() && old_bag[x] == msg.value;
            let nb = push_bag(b1, rk.dst_model as int, rk.dst_port as int, msg.value);
            assert(nb[r.dst_model as int][r.dst_port as int][idx] == msg.value);
        }
    }
}

/// Delivering a message list serves every message's matching routes.
pub proof fn lemma_deliver_msgs_complete<V>(
    b: Seq<Seq<Seq<V>>>,
    routes: Seq<Route>,
    src: int,
    msgs: Seq<Msg<V>>,
    k: int,
    w: int,
    j: int,
)
    requires
        0 <= w < k <= msgs.len(),
        0 <= j < routes.len(),
        routes[j].src_model == src,
        routes[j].src_port == msgs[w].port,
        routes_fit(routes, b),
    ensures
        deliver_msgs(b, routes, src, msgs, k)[routes[j].dst_model as int][routes[j].dst_port as int].contains(
            msgs[w].value,
        ),
    decreases k,
{
    lemma_deliver_msgs_shape(b, routes, src, msgs, k - 1);
    let b1 = deliver_msgs(b, routes, src, msgs, k - 1);
    if w == k - 1 {
        lemma_deliver_via_routes_complete(b1, routes, src, msgs[k - 1], routes.len() as int, j);
    } else {
        lemma_deliver_msgs_complete(b, routes, src, msgs, k - 1, w, j);
        lemma_deliver_via_routes_keeps(
            b1,
            routes,
            src,
            msgs[k - 1],
            routes.len() as int,
            routes[j].dst_model as int,
            routes[j].dst_port as int,
            msgs[w].value,
        );
    }
}

/// The output phase serves every imminent model's messages along every
/// matching route: no declared path is dropped.
pub proof fn lemma_deliver_outputs_complete<M: AtomicModel>(
    b: Seq<Seq<Seq<M::Value>>>,
    routes: Seq<Route>,
    models: Seq<M>,
    t_next: Seq<Time>,
    tn: Time,
    k: int,
    i: int,
    w: int,
    j: int,
)
    requires
        0 <= i < k <= models.len(),
        t_next[i] == tn,
        0 <= w < models[i].output_spec().len(),
        0 <= j < routes.len(),
        routes[j].src_model == i,
        routes[j].src_port == models[i].output_spec()[w].port,
        routes_fit(routes, b),
    ensures
        deliver_outputs(b, routes, models, t_next, tn, k)[routes[j].dst_model as int][routes[j].dst_port as int].contains(
            models[i].output_spec()[w].value,
        ),
    decreases k,
{
    lemma_deliver_outputs_shape(b, routes, models, t_next, tn, k - 1);
    let b1 = deliver_outputs(b, routes, models, t_next, tn, k - 1);
    if i == k - 1 {
        lemma_deliver_msgs_complete(
            b1,
            routes,
            i,
            models[i].output_spec(),
            models[i].output_spec().len() as int,
            w,
            j,
        );
    } else {
        lemma_deliver_outputs_complete(b, routes, models, t_next, tn, k - 1, i, w, j);
        if t_next[k - 1] == tn {
            lemma_deliver_msgs_keeps(
                b1,
                routes,
                k - 1,
                models[k - 1].output_spec(),
                models[k - 1].output_spec().len() as int,
                routes[j].dst_model as int,
                routes[j].dst_port as int,
                models[i].output_spec()[w].value,
            );
        }
    }
}

/// With no routes at all, delivering messages changes nothing.
pub proof fn lemma_deliver_msgs_no_routes<V>(
    b: Seq<Seq<Seq<V>>>,
    routes: Seq<Route>,
    src: int,
    msgs: Seq<Msg<V>>,
    k: int,
)
    requires
        routes.len() == 0,
    ensures
        deliver_msgs(b, routes, src, msgs, k) == b,
    decreases k,
{
    if k > 0 {
        lemma_deliver_msgs_no_routes(b, routes, src, msgs, k - 1);
    }
}

/// A single source endpoint that collects every message: the port records
/// exactly the message values, in order.
pub proof fn lemma_collect_msgs_single<V>(
    out: Seq<V>,
    ep: Endpoint,
    src: int,
    msgs: Seq<Msg<V>>,
    k: int,
)
    requires
        0 <= k <= msgs.len(),
        ep.model == src,
        forall|w: int| 0 <= w < k ==> (#[trigger] msgs[w]).port == ep.port,
    ensures
        collect_msgs(out, seq![ep], src, msgs, k) == out + msgs.take(k).map_values(
            |m: Msg<V>| m.value,
        ),
    decreases k,
{
    let f = |m: Msg<V>| m.value;
    if k <= 0 {
        assert(out + msgs.take(0).map_values(f) =~= out);
    } else {
        lemma_collect_msgs_single(out, ep, src, msgs, k - 1);
        let o1 = collect_msgs(out, seq![ep], src, msgs, k - 1);
        assert(collect_sources(o1, seq![ep], src, msgs[k - 1], 0) == o1);
        assert(seq![ep][0] == ep);
        assert(collect_sources(o1, seq![ep], src, msgs[k - 1], 1) == o1.push(msgs[k - 1].value));
        assert(out + msgs.take(k).map_values(f) =~= (out + msgs.take(k - 1).map_values(f)).push(
            f(msgs[k - 1]),
        ));
    }
}

/// Injecting a value stream through a single endpoint appends the values,
/// in order, to that endpoint's bag, and touches no other bag.
pub proof fn lemma_inject_values_single<V>(b: Seq<Seq<Seq<V>>>, ep: Endpoint, vals: Seq<V>, k: int)
    requires
        0 <= k <= vals.len(),
        ep.model < b.len(),
        ep.port < b[ep.model as int].len(),
    ensures
        inject_values(b, seq![ep], vals, k) == b.update(
            ep.model as int,
            b[ep.model as int].update(
                ep.port as int,
                b[ep.model as int][ep.port as int] + vals.take(k),
            ),
        ),
    decreases k,
{
    let m = ep.model as int;
    let p = ep.port as int;
    if k <= 0 {
        assert(b[m][p] + vals.take(0) =~= b[m][p]);
        assert(inject_values(b, seq![ep], vals, 0) =~~= b.update(
            m,
            b[m].update(p, b[m][p] + vals.take(0)),
        ));
    } else {
        lemma_inject_values_single(b, ep, vals, k - 1);
        let b1 = inject_values(b, seq![ep], vals, k - 1);
        assert(inject_value_eps(b1, seq![ep], vals[k - 1], 0) == b1);
        assert(seq![ep][0] == ep);
        assert(inject_value_eps(b1, seq![ep], vals[k - 1], 1) == push_bag(b1, m, p, vals[k - 1]));
        assert(b[m][p] + vals.take(k) =~= (b[m][p] + vals.take(k - 1)).push(vals[k - 1]));
        assert(push_bag(b1, m, p, vals[k - 1]) =~~= b.update(
            m,
            b[m].update(p, b[m][p] + vals.take(k)),
        ));
    }
}

/// Push one value into the bag of model `m`, port `p`.
fn bag_push<V: Copy>(bags: &mut Vec<Vec<Port<V>>>, m: usize, p: usize, v: V)
    requires
        m < old(bags)@.len(),
        p < old(bags)@[m as int]@.len(),
    ensures
        bags3(final(bags)@) == push_bag(bags3(old(bags)@), m as int, p as int, v),
{
    let inner = &mut bags[m];
    let port = &mut inner[p];
    port.push(v);
    proof {
        assert(bags3(bags@) =~~= push_bag(bags3(old(bags)@), m as int, p as int, v));
    }
}

/// Deliver `msg`, emitted by model `src`, along every route.
fn route_message<V: Copy>(bags: &mut Vec<Vec<Port<V>>>, routes: &Vec<Route>, src: usize, msg: Msg<V>)
    requires
        routes_fit(routes@, bags3(old(bags)@)),
    ensures
        bags3(final(bags)@) == deliver_via_routes(
            bags3(old(bags)@),
            routes@,
            src as int,
            msg,
            routes@.len() as int,
        ),
{
    let nr = routes.len();
    let mut k: usize = 0;
    while k < nr
        invariant
            k <= nr,
            nr == routes@.len(),
            routes_fit(routes@, bags3(old(bags)@)),
            bags3(bags@) == deliver_via_routes(bags3(old(bags)@), routes@, src as int, msg, k as int),
        decreases nr - k,
    {
        proof {
            lemma_deliver_via_routes_shape(bags3(old(bags)@), routes@, src as int, msg, k as int);
        }
        let r = routes[k];
        if r.src_model == src && r.src_port == msg.port {
            bag_push(bags, r.dst_model, r.dst_port, msg.value);
        }
        k = k + 1;
    }
}

/// Deliver every message of one model's output, in order.
fn route_outputs<V: Copy>(
    bags: &mut Vec<Vec<Port<V>>>,
    routes: &Vec<Route>,
    src: usize,
    msgs: &Vec<Msg<V>>,
)
    requires
        routes_fit(routes@, bags3(old(bags)@)),
    ensures
        bags3(final(bags)@) == deliver_msgs(
            bags3(old(bags)@),
            routes@,
            src as int,
            msgs@,
            msgs@.len() as int,
        ),
{
    let nm = msgs.len();
    let mut k: usize = 0;
    while k < nm
        invariant
            k <= nm,
            nm == msgs@.len(),
            routes_fit(routes@, bags3(old(bags)@)),
            bags3(bags@) == deliver_msgs(bags3(old(bags)@), routes@, src as int, msgs@, k as int),
        decreases nm - k,
    {
        proof {
            lemma_deliver_msgs_shape(bags3(old(bags)@), routes@, src as int, msgs@, k as int);
            lemma_fit_same_shape(bags3(old(bags)@), bags3(bags@));
        }
        route_message(bags, routes, src, msgs[k]);
        k = k + 1;
    }
}

/// Whether at least one of the ports is non-empty.
fn any_nonempty<V>(ports: &Vec<Port<V>>) -> (b: bool)
    ensures
        b == some_input(bags_view(ports@)),
{
    let n = ports.len();
    let mut k: usize = 0;
    while k < n
        invariant
            k <= n,
            n == ports@.len(),
            forall|j: int| 0 <= j < k ==> (#[trigger] bags_view(ports@)[j]).len() == 0,
        decreases n - k,
    {
        if !ports[k].is_empty() {
            proof {
                assert(bags_view(ports@)[k as int].len() > 0);
            }
            return true;
        }
        k = k + 1;
    }
    false
}

/// Clear every port in the family.
fn clear_ports<V>(v: &mut Vec<Port<V>>)
    ensures
        final(v)@.len() == old(v)@.len(),
        forall|p: int| 0 <= p < final(v)@.len() ==> (#[trigger] final(v)@[p])@.len() == 0,
{
    let n = v.len();
    let mut k: usize = 0;
    while k < n
        invariant
            k <= n,
            n == v@.len(),
            forall|p: int| 0 <= p < k ==> (#[trigger] v@[p])@.len() == 0,
        decreases n - k,
    {
        let port = &mut v[k];
        port.clear();
        k = k + 1;
    }
}

/// Record at one root output port everything that the imminent models emit
/// toward it, in model order.
fn collect_port<M: AtomicModel>(
    out: &mut Port<M::Value>,
    srcs: &Vec<Endpoint>,
    models: &Vec<M>,
    t_next: &Vec<Time>,
    tn: Time,
)
    requires
        t_next@.len() == models@.len(),
    ensures
        final(out)@ == collect_outputs(
            old(out)@,
            srcs@,
            models@,
            t_next@,
            tn,
            models@.len() as int,
        ),
{
    let n = models.len();
    let mut i: usize = 0;
    while i < n
        invariant
            i <= n,
            n == models@.len(),
            t_next@.len() == models@.len(),
            out@ == collect_outputs(old(out)@, srcs@, models@, t_next@, tn, i as int),
        decreases n - i,
    {
        if t_next[i] == tn {
            let msgs = models[i].output();
            let nm = msgs.len();
            let mut k: usize = 0;
            while k < nm
                invariant
                    k <= nm,
                    i < n,
                    n == models@.len(),
                    t_next@.len() == models@.len(),
                    nm == msgs@.len(),
                    msgs@ == models@[i as int].output_spec(),
                    t_next@[i as int] == tn,
                    out@ == collect_msgs(
                        collect_outputs(old(out)@, srcs@, models@, t_next@, tn, i as int),
                        srcs@,
                        i as int,
                        msgs@,
                        k as int,
                    ),
                decreases nm - k,
            {
                let msg = msgs[k];
                let ns = srcs.len();
                let mut s: usize = 0;
                while s < ns
                    invariant
                        s <= ns,
                        k < nm,
                        i < n,
                        n == models@.len(),
                        t_next@.len() == models@.len(),
                        nm == msgs@.len(),
                        ns == srcs@.len(),
                        msgs@ == models@[i as int].output_spec(),
                        t_next@[i as int] == tn,
                        msg == msgs@[k as int],
                        out@ == collect_sources(
                            collect_msgs(
                                collect_outputs(old(out)@, srcs@, models@, t_next@, tn, i as int),
                                srcs@,
                                i as int,
                                msgs@,
                                k as int,
                            ),
                            srcs@,
                            i as int,
                            msgs@[k as int],
                            s as int,
                        ),
                    decreases ns - s,
                {
                    let e = srcs[s];
                    if e.model == i && e.port == msg.port {
                        out.push(msg.value);
                    }
                    s = s + 1;
                }
                k = k + 1;
            }
            i = i + 1;
        } else {
            i = i + 1;
        }
    }
}

/// A family of empty ports.
fn empty_ports<V>(n: usize) -> (r: Vec<Port<V>>)
    ensures
        r@.len() == n as int,
        forall|p: int| 0 <= p < n ==> (#[trigger] r@[p])@.len() == 0,
{
    let mut r: Vec<Port<V>> = Vec::new();
    let mut k: usize = 0;
    while k < n
        invariant
            k <= n,
            r@.len() == k,
            forall|p: int| 0 <= p < k ==> (#[trigger] r@[p])@.len() == 0,
        decreases n - k,
    {
        r.push(Port::new());
        k = k + 1;
    }
    r
}

/// The root coordinator.  Its state is exclusively owned: all mutation of
/// the hosted models goes through the coordinator's calls into their own
/// transition functions.  Every operation requires and preserves `inv`;
/// writing the fields directly forfeits that invariant and with it the
/// ability to step.
pub struct RootCoordinator<M: AtomicModel> {
    /// The flattened arena of atomic models.
    pub models: Vec<M>,
    /// The name each model was registered under, for inspection.
    pub names: Vec<String>,
    /// The resolved routing table.
    pub routes: Vec<Route>,
    /// Destinations reached from each input port of the root model.
    pub root_in_targets: Vec<Vec<Endpoint>>,
    /// Sources feeding each output port of the root model.
    pub root_out_sources: Vec<Vec<Endpoint>>,
    /// Per model, the simulated time of its most recent transition.
    pub t_last: Vec<u64>,
    /// Per model, the simulated time of its next scheduled internal
    /// transition: always `t_last + time_advance()`.
    pub t_next: Vec<Time>,
    /// The current global simulated time.
    pub clock: u64,
    /// Per model, one input bag per declared input port.
    pub bags: Vec<Vec<Port<M::Value>>>,
    /// Values injected from outside, staged on the root's input ports until
    /// the next cycle.
    pub pending_in: Vec<Port<M::Value>>,
    /// What the root model emitted during the most recent cycle, one record
    /// per root output port.
    pub emitted: Vec<Port<M::Value>>,
}

impl<M: AtomicModel> RootCoordinator<M> {
    /// Number of atomic models in the arena.
    pub open spec fn n(self) -> int {
        self.models@.len() as int
    }

    /// The coordinator's invariant, established by `new` and preserved by
    /// every operation: shapes agree with the models' declarations, the
    /// routing table is valid, all input bags are empty between cycles, and
    /// the timing invariant holds for every model.
    pub open spec fn inv(self) -> bool {
        &&& self.names@.len() == self.n()
        &&& self.t_last@.len() == self.n()
        &&& self.t_next@.len() == self.n()
        &&& self.bags@.len() == self.n()
        &&& forall|i: int|
            0 <= i < self.n() ==> (#[trigger] self.bags@[i])@.len()
                == self.models@[i].input_decls().len()
        &&& forall|i: int, p: int|
            #![trigger self.bags@[i]@[p]]
            0 <= i < self.n() && 0 <= p < self.bags@[i]@.len() ==> self.bags@[i]@[p]@.len() == 0
        &&& forall|r: int|
            0 <= r < self.routes@.len() ==> route_valid(#[trigger] self.routes@[r], self.models@)
        &&& self.pending_in@.len() == self.root_in_targets@.len()
        &&& forall|p: int|
            0 <= p < self.root_in_targets@.len() ==> eps_valid_in(
                (#[trigger] self.root_in_targets@[p])@,
                self.models@,
            )
        &&& self.emitted@.len() == self.root_out_sources@.len()
        &&& forall|q: int|
            0 <= q < self.root_out_sources@.len() ==> eps_valid_out(
                (#[trigger] self.root_out_sources@[q])@,
                self.models@,
            )
        &&& forall|i: int| 0 <= i < self.n() ==> (#[trigger] self.t_last@[i]) <= self.clock
        &&& forall|i: int|
            0 <= i < self.n() ==> Time::Finite(self.clock).le_spec(#[trigger] self.t_next@[i])
        &&& forall|i: int|
            0 <= i < self.n() ==> (#[trigger] self.t_next@[i]) == Time::Finite(
                self.t_last@[i],
            ).plus_spec(self.models@[i].ta_spec())
    }

    /// Whether any value is staged on a root input port.
    pub open spec fn pending_has_input(self) -> bool {
        some_input(bags_view(self.pending_in@))
    }

    /// The next event time: the least scheduled time over all models, or
    /// the current clock if injected values are waiting (they are due
    /// immediately).  `Never` means the run is over.
    pub open spec fn next_time(self) -> Time {
        if self.pending_has_input() {
            Time::Finite(self.clock)
        } else {
            seq_min_time(self.t_next@)
        }
    }

    /// Whether model `i` is imminent: scheduled exactly at the next event
    /// time.
    pub open spec fn imminent_at(self, i: int) -> bool {
        self.t_next@[i] == self.next_time()
    }

    /// The input bags after the staged injections are fanned out.
    pub open spec fn bags_after_injection(self) -> Seq<Seq<Seq<M::Value>>> {
        inject_ports(
            bags3(self.bags@),
            self.root_in_targets@,
            self.pending_in@,
            self.pending_in@.len() as int,
        )
    }

    /// The input bags at the end of the output phase: injections first,
    /// then every imminent model's output routed through the coupling
    /// table, in model order.  All outputs are those of the pre-cycle
    /// states.
    pub open spec fn cycle_bags(self) -> Seq<Seq<Seq<M::Value>>> {
        deliver_outputs(
            self.bags_after_injection(),
            self.routes@,
            self.models@,
            self.t_next@,
            self.next_time(),
            self.n(),
        )
    }

    /// What this cycle delivers to model `i`, one bag per input port.
    pub open spec fn delivered(self, i: int) -> Seq<Seq<M::Value>> {
        self.cycle_bags()[i]
    }

    /// Whether model `i` transitions this cycle: it is imminent, or at
    /// least one value was delivered to it.
    pub open spec fn touched(self, i: int) -> bool {
        self.imminent_at(i) || some_input(self.delivered(i))
    }

    /// Simulated time since model `i`'s last transition, at the next event
    /// time.
    pub open spec fn elapsed_of(self, i: int) -> u64 {
        (self.next_time().ticks() - self.t_last@[i]) as u64
    }

    /// How model `i`'s state after the cycle relates to its state before:
    /// internal-then-external for a model that is both imminent and
    /// externally triggered, only the due one otherwise, untouched state
    /// for a model that is neither.
    pub open spec fn transition_post(self, i: int, m: M) -> bool {
        let b = self.delivered(i);
        let prev = self.models@[i];
        if self.imminent_at(i) && some_input(b) {
            exists|mid: M|
                {
                    &&& #[trigger] prev.int_post(mid)
                    &&& mid.ext_post(0, b, m)
                    &&& mid.input_decls() == prev.input_decls()
                    &&& mid.output_decls() == prev.output_decls()
                }
        } else if self.imminent_at(i) {
            prev.int_post(m)
        } else if some_input(b) {
            prev.ext_post(self.elapsed_of(i), b, m)
        } else {
            m == prev
        }
    }

    /// What root output port `q` records this cycle: every routed value of
    /// an imminent model's output port that feeds `q`, in model order.
    pub open spec fn cycle_emitted(self, q: int) -> Seq<M::Value> {
        collect_outputs(
            Seq::empty(),
            self.root_out_sources@[q]@,
            self.models@,
            self.t_next@,
            self.next_time(),
            self.n(),
        )
    }

    /// Take ownership of a finished coupled model and prepare a run: the
    /// clock starts at zero, every model's last transition is at zero and
    /// its first internal event is its initial time advance away, and every
    /// port is empty.
    pub fn new(root: Coupled<M>) -> (sim: Self)
        requires
            root.wf(),
        ensures
            sim.inv(),
            sim.n() == root.models@.len(),
            forall|i: int| 0 <= i < sim.n() ==> (#[trigger] sim.models@[i]) == root.models@[i].model,
            forall|i: int|
                0 <= i < sim.n() ==> (#[trigger] sim.names@[i])@ == root.models@[i].name@,
            sim.routes@ == root.routes@,
            sim.root_in_targets@ == root.in_targets@,
            sim.root_out_sources@ == root.out_sources@,
            sim.clock == 0,
            forall|i: int| 0 <= i < sim.n() ==> (#[trigger] sim.t_last@[i]) == 0,
            forall|i: int|
                0 <= i < sim.n() ==> (#[trigger] sim.t_next@[i]) == Time::Finite(0).plus_spec(
                    sim.models@[i].ta_spec(),
                ),
            forall|p: int| 0 <= p < sim.pending_in@.len() ==> (#[trigger] sim.pending_in@[p])@.len() == 0,
            forall|q: int| 0 <= q < sim.emitted@.len() ==> (#[trigger] sim.emitted@[q])@.len() == 0,
    {
        let ghost root0 = root;
        let mut root = root;
        let mut models: Vec<M> = Vec::new();
        let mut names: Vec<String> = Vec::new();
        let mut t_last: Vec<u64> = Vec::new();
        let mut t_next: Vec<Time> = Vec::new();
        let mut bags: Vec<Vec<Port<M::Value>>> = Vec::new();
        let total = root.models.len();
        let mut i: usize = 0;
        while i < total
            invariant
                i <= total,
                total == root0.models@.len(),
                root.models@ == root0.models@.skip(i as int),
                root.routes@ == root0.routes@,
                root.in_targets@ == root0.in_targets@,
                root.out_sources@ == root0.out_sources@,
                root.in_decls@ == root0.in_decls@,
                root.out_decls@ == root0.out_decls@,
                root0.wf(),
                models@.len() == i,
                names@.len() == i,
                t_last@.len() == i,
                t_next@.len() == i,
                bags@.len() == i,
                forall|k: int| 0 <= k < i ==> (#[trigger] models@[k]) == root0.models@[k].model,
                forall|k: int| 0 <= k < i ==> (#[trigger] names@[k])@ == root0.models@[k].name@,
                forall|k: int| 0 <= k < i ==> (#[trigger] t_last@[k]) == 0,
                forall|k: int|
                    0 <= k < i ==> (#[trigger] t_next@[k]) == Time::Finite(0).plus_spec(
                        models@[k].ta_spec(),
                    ),
                forall|k: int|
                    0 <= k < i ==> (#[trigger] bags@[k])@.len() == models@[k].input_decls().len(),
                forall|k: int, p: int|
                    #![trigger bags@[k]@[p]]
                    0 <= k < i && 0 <= p < bags@[k]@.len() ==> bags@[k]@[p]@.len() == 0,
            decreases total - i,
        {
            proof {
                assert(root.models@[0] == root0.models@[i as int]);
                assert(entry_wf(root0.models@[i as int]));
            }
            let e = root.models.remove(0);
            proof {
                assert(root.models@ =~= root0.models@.skip(i + 1 as int));
            }
            let n_in = e.in_decls.len();
            let ta = e.model.time_advance();
            models.push(e.model);
            names.push(e.name);
            t_last.push(0u64);
            t_next.push(Time::Finite(0).plus(ta));
            bags.push(empty_ports::<M::Value>(n_in));
            i = i + 1;
        }
        let pending_in = empty_ports::<M::Value>(root.in_targets.len());
        let emitted = empty_ports::<M::Value>(root.out_sources.len());
        let sim = RootCoordinator {
            models,
            names,
            routes: root.routes,
            root_in_targets: root.in_targets,
            root_out_sources: root.out_sources,
            t_last,
            t_next,
            clock: 0,
            bags,
            pending_in,
            emitted,
        };
        proof {
            assert forall|r: int| 0 <= r < sim.routes@.len() implies route_valid(
                #[trigger] sim.routes@[r],
                sim.models@,
            ) by {
                assert(crate::coupled::route_wf(root0.routes@[r], root0.models@));
                let rr = root0.routes@[r];
                assert(entry_wf(root0.models@[rr.src_model as int]));
                assert(entry_wf(root0.models@[rr.dst_model as int]));
            }
            assert forall|p: int| 0 <= p < sim.root_in_targets@.len() implies eps_valid_in(
                (#[trigger] sim.root_in_targets@[p])@,
                sim.models@,
            ) by {
                assert(crate::coupled::eps_wf_in(
                    root0.in_targets@[p]@,
                    root0.models@,
                    root0.in_decls@[p].tag,
                ));
                let eps = root0.in_targets@[p]@;
                assert forall|k: int| 0 <= k < eps.len() implies {
                    let e = #[trigger] eps[k];
                    e.model < sim.models@.len() && e.port < sim.models@[e.model as int].input_decls().len()
                } by {
                    assert(entry_wf(root0.models@[eps[k].model as int]));
                }
            }
            assert forall|q: int| 0 <= q < sim.root_out_sources@.len() implies eps_valid_out(
                (#[trigger] sim.root_out_sources@[q])@,
                sim.models@,
            ) by {
                assert(crate::coupled::eps_wf_out(
                    root0.out_sources@[q]@,
                    root0.models@,
                    root0.out_decls@[q].tag,
                ));
                let eps = root0.out_sources@[q]@;
                assert forall|k: int| 0 <= k < eps.len() implies {
                    let e = #[trigger] eps[k];
                    e.model < sim.models@.len() && e.port < sim.models@[e.model as int].output_decls().len()
                } by {
                    assert(entry_wf(root0.models@[eps[k].model as int]));
                }
            }
        }
        sim
    }

    /// How one executed cycle at time `t` relates the state before
    /// (`self`) to the state after (`post`): the cycle was due exactly at
    /// `t`; every touched model transitioned as `transition_post` says,
    /// against the bags this cycle delivered, with its clocks advanced to
    /// `t` and rescheduled by its new time advance; untouched models and
    /// the whole structure are unchanged; the root output record holds
    /// exactly this cycle's emissions; and every port, including the
    /// staged injections, is cleared.
    pub open spec fn cycle_post(self, post: Self, t: u64) -> bool {
        &&& self.next_time() == Time::Finite(t)
        &&& post.clock == t
        &&& post.models@.len() == self.n()
        &&& forall|i: int|
            0 <= i < self.n() ==> self.transition_post(i, #[trigger] post.models@[i])
        &&& forall|i: int|
            0 <= i < self.n() ==> (#[trigger] post.models@[i]).input_decls()
                == self.models@[i].input_decls() && post.models@[i].output_decls()
                == self.models@[i].output_decls()
        &&& forall|i: int|
            0 <= i < self.n() ==> (#[trigger] post.t_last@[i]) == if self.touched(i) {
                t
            } else {
                self.t_last@[i]
            }
        &&& forall|i: int|
            0 <= i < self.n() ==> (#[trigger] post.t_next@[i]) == if self.touched(i) {
                Time::Finite(t).plus_spec(post.models@[i].ta_spec())
            } else {
                self.t_next@[i]
            }
        &&& post.emitted@.len() == self.emitted@.len()
        &&& forall|q: int|
            0 <= q < post.emitted@.len() ==> (#[trigger] post.emitted@[q])@ == self.cycle_emitted(q)
        &&& post.routes@ == self.routes@
        &&& post.root_in_targets@ == self.root_in_targets@
        &&& post.root_out_sources@ == self.root_out_sources@
        &&& post.names@ == self.names@
        &&& post.pending_in@.len() == self.pending_in@.len()
        &&& forall|p: int|
            0 <= p < post.pending_in@.len() ==> (#[trigger] post.pending_in@[p])@.len() == 0
    }

    /// Execute one simulation cycle, or report that the run is over.
    ///
    /// When a cycle runs at time `t`: every imminent model's output —
    /// computed from its pre-cycle state — is routed through the coupling
    /// table and recorded at the root output ports; every model that is
    /// imminent or received input transitions (internal effects first, then
    /// external, for a model that is both); the transitioned models'
    /// clocks and the global clock advance to `t`; and every port is
    /// cleared.  The whole effect is `cycle_post`.
    pub fn step(&mut self) -> (r: StepOutcome)
        requires
            old(self).inv(),
        ensures
            final(self).inv(),
            match r {
                StepOutcome::Finished => {
                    &&& old(self).next_time() == Time::Never
                    &&& *final(self) == *old(self)
                },
                StepOutcome::Advanced(t) => old(self).cycle_post(*final(self), t),
            },
    {
        let pending = any_nonempty(&self.pending_in);
        let nmod = self.models.len();
        let mut acc = Time::Never;
        let mut w: usize = 0;
        while w < nmod
            invariant
                w <= nmod,
                nmod == self.t_next@.len(),
                nmod == old(self).t_next@.len(),
                self.t_next@ == old(self).t_next@,
                acc == min_upto(self.t_next@, w as int),
            decreases nmod - w,
        {
            acc = acc.min_of(self.t_next[w]);
            w = w + 1;
        }
        let tn = if pending {
            Time::Finite(self.clock)
        } else {
            acc
        };
        proof {
            assert(tn == old(self).next_time());
        }
        let tn_val: u64 = match tn {
            Time::Finite(v) => v,
            Time::Never => {
                return StepOutcome::Finished;
            },
        };
        proof {
            if !old(self).pending_has_input() {
                lemma_min_upto_bound(
                    old(self).t_next@,
                    old(self).n(),
                    Time::Finite(old(self).clock),
                );
            }
            assert(old(self).clock <= tn_val);
        }
        // Output phase, recording side: what the root emits this cycle is
        // computed from the pre-transition states.
        clear_ports(&mut self.emitted);
        let nq = self.emitted.len();
        let mut q: usize = 0;
        while q < nq
            invariant
                q <= nq,
                nq == old(self).emitted@.len(),
                self.models@ == old(self).models@,
                self.names@ == old(self).names@,
                self.routes@ == old(self).routes@,
                self.root_in_targets@ == old(self).root_in_targets@,
                self.root_out_sources@ == old(self).root_out_sources@,
                self.t_last@ == old(self).t_last@,
                self.t_next@ == old(self).t_next@,
                self.clock == old(self).clock,
                self.bags@ == old(self).bags@,
                self.pending_in@ == old(self).pending_in@,
                self.emitted@.len() == nq,
                tn == old(self).next_time(),
                old(self).inv(),
                forall|j: int|
                    0 <= j < q ==> (#[trigger] self.emitted@[j])@ == old(self).cycle_emitted(j),
                forall|j: int| q <= j < nq ==> (#[trigger] self.emitted@[j])@.len() == 0,
            decreases nq - q,
        {
            proof {
                assert(self.emitted@[q as int]@ =~= Seq::<M::Value>::empty());
            }
            collect_port(
                &mut self.emitted[q],
                &self.root_out_sources[q],
                &self.models,
                &self.t_next,
                tn,
            );
            q = q + 1;
        }
        // Output phase, delivery side: staged injections first, then every
        // imminent model's output, fanned out through the routing table.
        let np = self.pending_in.len();
        let mut p: usize = 0;
        while p < np
            invariant
                p <= np,
                np == old(self).pending_in@.len(),
                self.models@ == old(self).models@,
                self.names@ == old(self).names@,
                self.routes@ == old(self).routes@,
                self.root_in_targets@ == old(self).root_in_targets@,
                self.root_out_sources@ == old(self).root_out_sources@,
                self.t_last@ == old(self).t_last@,
                self.t_next@ == old(self).t_next@,
                self.clock == old(self).clock,
                self.pending_in@ == old(self).pending_in@,
                self.emitted@.len() == old(self).emitted@.len(),
                tn == old(self).next_time(),
                forall|j: int|
                    0 <= j < self.emitted@.len() ==> (#[trigger] self.emitted@[j])@ == old(
                        self,
                    ).cycle_emitted(j),
                old(self).inv(),
                same_shape(bags3(old(self).bags@), bags3(self.bags@)),
                bags3(self.bags@) == inject_ports(
                    bags3(old(self).bags@),
                    old(self).root_in_targets@,
                    old(self).pending_in@,
                    p as int,
                ),
            decreases np - p,
        {
            let ghost before_port = bags3(self.bags@);
            let nv = self.pending_in[p].len();
            let mut j: usize = 0;
            while j < nv
                invariant
                    j <= nv,
                    p < np,
                    np == old(self).pending_in@.len(),
                    nv == old(self).pending_in@[p as int]@.len(),
                    self.models@ == old(self).models@,
                    self.names@ == old(self).names@,
                    self.routes@ == old(self).routes@,
                    self.root_in_targets@ == old(self).root_in_targets@,
                    self.root_out_sources@ == old(self).root_out_sources@,
                    self.t_last@ == old(self).t_last@,
                    self.t_next@ == old(self).t_next@,
                    self.clock == old(self).clock,
                    self.pending_in@ == old(self).pending_in@,
                    self.emitted@.len() == old(self).emitted@.len(),
                    tn == old(self).next_time(),
                    forall|jj: int|
                        0 <= jj < self.emitted@.len() ==> (#[trigger] self.emitted@[jj])@ == old(
                            self,
                        ).cycle_emitted(jj),
                    old(self).inv(),
                    before_port == inject_ports(
                        bags3(old(self).bags@),
                        old(self).root_in_targets@,
                        old(self).pending_in@,
                        p as int,
                    ),
                    same_shape(bags3(old(self).bags@), bags3(self.bags@)),
                    bags3(self.bags@) == inject_values(
                        before_port,
                        old(self).root_in_targets@[p as int]@,
                        old(self).pending_in@[p as int]@,
                        j as int,
                    ),
                decreases nv - j,
            {
                let v = *self.pending_in[p].get(j);
                let ghost before_val = bags3(self.bags@);
                let ne = self.root_in_targets[p].len();
                let mut s: usize = 0;
                while s < ne
                    invariant
                        s <= ne,
                        j < nv,
                        p < np,
                        np == old(self).pending_in@.len(),
                        nv == old(self).pending_in@[p as int]@.len(),
                        ne == old(self).root_in_targets@[p as int]@.len(),
                        v == old(self).pending_in@[p as int]@[j as int],
                        self.models@ == old(self).models@,
                        self.names@ == old(self).names@,
                        self.routes@ == old(self).routes@,
                        self.root_in_targets@ == old(self).root_in_targets@,
                        self.root_out_sources@ == old(self).root_out_sources@,
                        self.t_last@ == old(self).t_last@,
                        self.t_next@ == old(self).t_next@,
                        self.clock == old(self).clock,
                        self.pending_in@ == old(self).pending_in@,
                        self.emitted@.len() == old(self).emitted@.len(),
                        tn == old(self).next_time(),
                        forall|jj: int|
                            0 <= jj < self.emitted@.len() ==> (#[trigger] self.emitted@[jj])@
                                == old(self).cycle_emitted(jj),
                        old(self).inv(),
                        same_shape(bags3(old(self).bags@), bags3(self.bags@)),
                        bags3(self.bags@) == inject_value_eps(
                            before_val,
                            old(self).root_in_targets@[p as int]@,
                            v,
                            s as int,
                        ),
                    decreases ne - s,
                {
                    let e = self.root_in_targets[p][s];
                    proof {
                        assert(eps_valid_in(
                            old(self).root_in_targets@[p as int]@,
                            old(self).models@,
                        ));
                        assert(e.model < old(self).models@.len());
                        assert(old(self).bags@[e.model as int]@.len()
                            == old(self).models@[e.model as int].input_decls().len());
                        assert(bags3(self.bags@)[e.model as int].len() == bags3(
                            old(self).bags@,
                        )[e.model as int].len());
                    }
                    let ghost prevb = bags3(self.bags@);
                    bag_push(&mut self.bags, e.model, e.port, v);
                    proof {
                        lemma_push_bag_shape(prevb, e.model as int, e.port as int, v);
                        lemma_same_shape_trans(bags3(old(self).bags@), prevb, bags3(self.bags@));
                    }
                    s = s + 1;
                }
                j = j + 1;
            }
            p = p + 1;
        }
        // Imminent models' outputs.
        let mut i: usize = 0;
        while i < nmod
            invariant
                i <= nmod,
                nmod == old(self).n(),
                self.models@ == old(self).models@,
                self.names@ == old(self).names@,
                self.routes@ == old(self).routes@,
                self.root_in_targets@ == old(self).root_in_targets@,
                self.root_out_sources@ == old(self).root_out_sources@,
                self.t_last@ == old(self).t_last@,
                self.t_next@ == old(self).t_next@,
                self.clock == old(self).clock,
                self.pending_in@ == old(self).pending_in@,
                self.emitted@.len() == old(self).emitted@.len(),
                tn == old(self).next_time(),
                forall|jj: int|
                    0 <= jj < self.emitted@.len() ==> (#[trigger] self.emitted@[jj])@ == old(
                        self,
                    ).cycle_emitted(jj),
                old(self).inv(),
                same_shape(bags3(old(self).bags@), bags3(self.bags@)),
                bags3(self.bags@) == deliver_outputs(
                    old(self).bags_after_injection(),
                    old(self).routes@,
                    old(self).models@,
                    old(self).t_next@,
                    tn,
                    i as int,
                ),
            decreases nmod - i,
        {
            if self.t_next[i] == tn {
                let msgs = self.models[i].output();
                proof {
                    assert forall|r: int| 0 <= r < self.routes@.len() implies {
                        let rr = #[trigger] self.routes@[r];
                        rr.dst_model < bags3(self.bags@).len() && rr.dst_port < bags3(
                            self.bags@,
                        )[rr.dst_model as int].len()
                    } by {
                        assert(route_valid(self.routes@[r], old(self).models@));
                        let rr = self.routes@[r];
                        assert(old(self).bags@[rr.dst_model as int]@.len()
                            == old(self).models@[rr.dst_model as int].input_decls().len());
                    }
                }
                let ghost prevb = bags3(self.bags@);
                route_outputs(&mut self.bags, &self.routes, i, &msgs);
                proof {
                    lemma_deliver_msgs_shape(prevb, self.routes@, i as int, msgs@, msgs@.len() as int);
                    lemma_same_shape_trans(bags3(old(self).bags@), prevb, bags3(self.bags@));
                }
            }
            i = i + 1;
        }
        proof {
            assert(bags3(self.bags@) == old(self).cycle_bags());
        }
        // Transition phase.
        let ghost cyc = bags3(self.bags@);
        let ghost bags_done = self.bags@;
        let mut i: usize = 0;
        while i < nmod
            invariant
                i <= nmod,
                nmod == old(self).n(),
                self.models@.len() == nmod,
                self.t_last@.len() == nmod,
                self.t_next@.len() == nmod,
                self.names@ == old(self).names@,
                self.routes@ == old(self).routes@,
                self.root_in_targets@ == old(self).root_in_targets@,
                self.root_out_sources@ == old(self).root_out_sources@,
                self.clock == old(self).clock,
                self.pending_in@ == old(self).pending_in@,
                self.emitted@.len() == old(self).emitted@.len(),
                tn == old(self).next_time(),
                tn == Time::Finite(tn_val),
                old(self).clock <= tn_val,
                forall|jj: int|
                    0 <= jj < self.emitted@.len() ==> (#[trigger] self.emitted@[jj])@ == old(
                        self,
                    ).cycle_emitted(jj),
                old(self).inv(),
                self.bags@ == bags_done,
                cyc == bags3(self.bags@),
                cyc == old(self).cycle_bags(),
                same_shape(bags3(old(self).bags@), cyc),
                forall|k: int|
                    0 <= k < i ==> old(self).transition_post(k, #[trigger] self.models@[k]),
                forall|k: int|
                    0 <= k < i ==> (#[trigger] self.models@[k]).input_decls() == old(
                        self,
                    ).models@[k].input_decls() && self.models@[k].output_decls() == old(
                        self,
                    ).models@[k].output_decls(),
                forall|k: int|
                    0 <= k < i ==> (#[trigger] self.t_last@[k]) == if old(self).touched(k) {
                        tn_val
                    } else {
                        old(self).t_last@[k]
                    },
                forall|k: int|
                    0 <= k < i ==> (#[trigger] self.t_next@[k]) == if old(self).touched(k) {
                        Time::Finite(tn_val).plus_spec(self.models@[k].ta_spec())
                    } else {
                        old(self).t_next@[k]
                    },
                forall|k: int|
                    i <= k < nmod ==> (#[trigger] self.models@[k]) == old(self).models@[k],
                forall|k: int| i <= k < nmod ==> (#[trigger] self.t_last@[k]) == old(self).t_last@[k],
                forall|k: int| i <= k < nmod ==> (#[trigger] self.t_next@[k]) == old(self).t_next@[k],
            decreases nmod - i,
        {
            let imm = self.t_next[i] == tn;
            let has = any_nonempty(&self.bags[i]);
            proof {
                assert(bags_view(self.bags@[i as int]@) == cyc[i as int]);
                assert(cyc[i as int] == old(self).delivered(i as int));
                assert(imm == old(self).imminent_at(i as int));
                assert(has == some_input(old(self).delivered(i as int)));
                assert(old(self).bags@[i as int]@.len()
                    == old(self).models@[i as int].input_decls().len());
                assert(self.bags@[i as int]@.len() == old(self).bags@[i as int]@.len());
            }
            if imm && has {
                let m = &mut self.models[i];
                m.internal_transition();
                let ghost mid = self.models@[i as int];
                proof {
                    assert(old(self).models@[i as int].int_post(mid));
                    assert(mid.input_decls() == old(self).models@[i as int].input_decls());
                    assert(Time::Finite(0u64).le_spec(mid.ta_spec())) by {
                        match mid.ta_spec() {
                            Time::Finite(b) => {
                            },
                            Time::Never => {
                            },
                        }
                    }
                }
                let m2 = &mut self.models[i];
                m2.external_transition(0, &self.bags[i]);
                proof {
                    let now = self.models@[i as int];
                    assert(mid.ext_post(0, old(self).delivered(i as int), now));
                    assert(old(self).transition_post(i as int, now));
                }
            } else if imm {
                let m = &mut self.models[i];
                m.internal_transition();
                proof {
                    assert(old(self).transition_post(i as int, self.models@[i as int]));
                }
            } else if has {
                proof {
                    assert(old(self).t_last@[i as int] <= old(self).clock);
                }
                let elapsed = tn_val - self.t_last[i];
                proof {
                    let ta = old(self).models@[i as int].ta_spec();
                    let tl = old(self).t_last@[i as int];
                    assert(old(self).t_next@[i as int] == Time::Finite(tl).plus_spec(ta));
                    if old(self).pending_has_input() {
                        assert(Time::Finite(old(self).clock).le_spec(old(self).t_next@[i as int]));
                    } else {
                        lemma_min_upto_le(old(self).t_next@, old(self).n(), i as int);
                    }
                    assert(Time::Finite(tn_val).le_spec(old(self).t_next@[i as int]));
                    assert(Time::Finite(elapsed).le_spec(ta)) by {
                        match ta {
                            Time::Finite(d) => {
                                if tl + d <= u64::MAX {
                                    assert(old(self).t_next@[i as int] == Time::Finite(
                                        (tl + d) as u64,
                                    ));
                                } else {
                                    assert(old(self).t_next@[i as int] == Time::Never);
                                }
                            },
                            Time::Never => {
                            },
                        }
                    }
                    assert(elapsed == old(self).elapsed_of(i as int));
                }
                let m = &mut self.models[i];
                m.external_transition(elapsed, &self.bags[i]);
                proof {
                    assert(old(self).transition_post(i as int, self.models@[i as int]));
                }
            } else {
                proof {
                    assert(old(self).transition_post(i as int, self.models@[i as int]));
                }
            }
            if imm || has {
                let mref = &self.models[i];
                let ta_now = mref.time_advance();
                self.t_last.set(i, tn_val);
                self.t_next.set(i, Time::Finite(tn_val).plus(ta_now));
            }
            i = i + 1;
        }
        proof {
            assert forall|k: int| 0 <= k < nmod implies (#[trigger] self.bags@[k])@.len() == old(
                self,
            ).bags@[k]@.len() by {
                assert(bags3(self.bags@)[k].len() == bags3(old(self).bags@)[k].len());
            }
        }
        // Clock advance and port clearing.
        let ghost models_done = self.models@;
        let ghost t_last_done = self.t_last@;
        let ghost t_next_done = self.t_next@;
        let mut i: usize = 0;
        while i < nmod
            invariant
                i <= nmod,
                nmod == old(self).n(),
                self.models@.len() == nmod,
                self.t_last@.len() == nmod,
                self.t_next@.len() == nmod,
                self.bags@.len() == nmod,
                self.names@ == old(self).names@,
                self.routes@ == old(self).routes@,
                self.root_in_targets@ == old(self).root_in_targets@,
                self.root_out_sources@ == old(self).root_out_sources@,
                self.clock == old(self).clock,
                self.pending_in@ == old(self).pending_in@,
                self.emitted@.len() == old(self).emitted@.len(),
                old(self).inv(),
                self.models@ == models_done,
                self.t_last@ == t_last_done,
                self.t_next@ == t_next_done,
                forall|jj: int|
                    0 <= jj < self.emitted@.len() ==> (#[trigger] self.emitted@[jj])@ == old(
                        self,
                    ).cycle_emitted(jj),
                forall|k: int|
                    0 <= k < nmod ==> (#[trigger] self.bags@[k])@.len() == old(
                        self,
                    ).bags@[k]@.len(),
                forall|k: int, pp: int|
                    #![trigger self.bags@[k]@[pp]]
                    0 <= k < i && 0 <= pp < self.bags@[k]@.len() ==> self.bags@[k]@[pp]@.len() == 0,
            decreases nmod - i,
        {
            let inner = &mut self.bags[i];
            clear_ports(inner);
            i = i + 1;
        }
        clear_ports(&mut self.pending_in);
        self.clock = tn_val;
        proof {
            assert forall|k: int| 0 <= k < nmod implies (#[trigger] self.t_last@[k]) <= self.clock by {
                if old(self).touched(k) {
                } else {
                    assert(old(self).t_last@[k] <= old(self).clock);
                }
            }
            assert forall|k: int| 0 <= k < nmod implies Time::Finite(self.clock).le_spec(
                #[trigger] self.t_next@[k],
            ) by {
                if old(self).touched(k) {
                    let ta = self.models@[k].ta_spec();
                    assert(self.t_next@[k] == Time::Finite(tn_val).plus_spec(ta));
                    match ta {
                        Time::Finite(d) => {
                        },
                        Time::Never => {
                        },
                    }
                } else {
                    if old(self).pending_has_input() {
                        assert(Time::Finite(old(self).clock).le_spec(old(self).t_next@[k]));
                    } else {
                        lemma_min_upto_le(old(self).t_next@, old(self).n(), k);
                    }
                }
            }
            assert forall|k: int| 0 <= k < nmod implies (#[trigger] self.t_next@[k]) == Time::Finite(
                self.t_last@[k],
            ).plus_spec(self.models@[k].ta_spec()) by {
                if old(self).touched(k) {
                } else {
                    assert(self.models@[k] == old(self).models@[k]);
                    assert(old(self).t_next@[k] == Time::Finite(old(self).t_last@[k]).plus_spec(
                        old(self).models@[k].ta_spec(),
                    ));
                }
            }
            assert forall|k: int| 0 <= k < nmod implies (#[trigger] self.bags@[k])@.len()
                == self.models@[k].input_decls().len() by {
                assert(old(self).bags@[k]@.len() == old(self).models@[k].input_decls().len());
            }
            assert forall|r: int| 0 <= r < self.routes@.len() implies route_valid(
                #[trigger] self.routes@[r],
                self.models@,
            ) by {
                assert(route_valid(old(self).routes@[r], old(self).models@));
            }
            assert forall|pp: int| 0 <= pp < self.root_in_targets@.len() implies eps_valid_in(
                (#[trigger] self.root_in_targets@[pp])@,
                self.models@,
            ) by {
                assert(eps_valid_in(old(self).root_in_targets@[pp]@, old(self).models@));
                let eps = self.root_in_targets@[pp]@;
                assert forall|kk: int| 0 <= kk < eps.len() implies {
                    let e = #[trigger] eps[kk];
                    e.model < self.models@.len() && e.port < self.models@[e.model as int].input_decls().len()
                } by {
                    assert(eps[kk].model < old(self).models@.len());
                }
            }
            assert forall|qq: int| 0 <= qq < self.root_out_sources@.len() implies eps_valid_out(
                (#[trigger] self.root_out_sources@[qq])@,
                self.models@,
            ) by {
                assert(eps_valid_out(old(self).root_out_sources@[qq]@, old(self).models@));
                let eps = self.root_out_sources@[qq]@;
                assert forall|kk: int| 0 <= kk < eps.len() implies {
                    let e = #[trigger] eps[kk];
                    e.model < self.models@.len() && e.port < self.models@[e.model as int].output_decls().len()
                } by {
                    assert(eps[kk].model < old(self).models@.len());
                }
            }
        }
        StepOutcome::Advanced(tn_val)
    }

    /// The next event time, without executing anything.
    pub fn peek_next_time(&self) -> (t: Time)
        ensures
            t == self.next_time(),
    {
        let pending = any_nonempty(&self.pending_in);
        if pending {
            return Time::Finite(self.clock);
        }
        let n = self.t_next.len();
        let mut acc = Time::Never;
        let mut i: usize = 0;
        while i < n
            invariant
                i <= n,
                n == self.t_next@.len(),
                acc == min_upto(self.t_next@, i as int),
            decreases n - i,
        {
            acc = acc.min_of(self.t_next[i]);
            i = i + 1;
        }
        acc
    }

    /// Stage a value on root input port `port`.  It is delivered, fanned
    /// out along the port's external input couplings, at the start of the
    /// next executed cycle, which is due immediately (at the current
    /// simulated time).
    pub fn inject(&mut self, port: usize, v: M::Value)
        requires
            old(self).inv(),
            port < old(self).pending_in@.len(),
        ensures
            final(self).inv(),
            final(self).pending_in@.len() == old(self).pending_in@.len(),
            final(self).pending_in@[port as int]@ == old(self).pending_in@[port as int]@.push(v),
            forall|k: int|
                0 <= k < old(self).pending_in@.len() && k != port ==> final(self).pending_in@[k]
                    == old(self).pending_in@[k],
            final(self).models@ == old(self).models@,
            final(self).t_last@ == old(self).t_last@,
            final(self).t_next@ == old(self).t_next@,
            final(self).clock == old(self).clock,
            final(self).bags@ == old(self).bags@,
            final(self).emitted@ == old(self).emitted@,
            final(self).routes@ == old(self).routes@,
            final(self).root_in_targets@ == old(self).root_in_targets@,
            final(self).root_out_sources@ == old(self).root_out_sources@,
            final(self).names@ == old(self).names@,
    {
        let pp = &mut self.pending_in[port];
        pp.push(v);
    }

    /// The run relation: `post` is reached from `pre` by exactly `k`
    /// executed cycles, each related to its predecessor state by
    /// `cycle_post` and each due no later than `horizon`.
    pub open spec fn advances(pre: Self, post: Self, k: nat, horizon: Time) -> bool
        decreases k,
    {
        if k == 0 {
            post == pre
        } else {
            exists|mid: Self, t: u64|
                {
                    &&& pre.next_time() == Time::Finite(t)
                    &&& Time::Finite(t).le_spec(horizon)
                    &&& #[trigger] pre.cycle_post(mid, t)
                    &&& Self::advances(mid, post, (k - 1) as nat, horizon)
                }
        }
    }

    /// A chain of cycles extends by one cycle at its end.
    pub proof fn lemma_advances_extend(
        pre: Self,
        mid: Self,
        post: Self,
        k: nat,
        t: u64,
        horizon: Time,
    )
        requires
            Self::advances(pre, mid, k, horizon),
            Time::Finite(t).le_spec(horizon),
            mid.cycle_post(post, t),
        ensures
            Self::advances(pre, post, (k + 1) as nat, horizon),
        decreases k,
    {
        if k == 0 {
            assert(mid == pre);
            assert(Self::advances(post, post, 0, horizon));
            assert(pre.cycle_post(post, t));
        } else {
            let (m1, t1) = choose|m1: Self, t1: u64|
                {
                    &&& pre.next_time() == Time::Finite(t1)
                    &&& Time::Finite(t1).le_spec(horizon)
                    &&& #[trigger] pre.cycle_post(m1, t1)
                    &&& Self::advances(m1, mid, (k - 1) as nat, horizon)
                };
            Self::lemma_advances_extend(m1, mid, post, (k - 1) as nat, t, horizon);
            assert(pre.cycle_post(m1, t1));
            assert(Self::advances(m1, post, k, horizon));
        }
    }

    /// Drive the simulation until the next event would fall past the
    /// horizon, until nothing further is scheduled, or until `max_cycles`
    /// cycles have run, whichever comes first.  The cycle budget is the
    /// caller's safeguard against a network that schedules events forever
    /// at one instant.  The returned count says how many cycles actually
    /// ran: the final state is reached from the initial one by exactly
    /// that many cycles of `cycle_post`, each due within the horizon, and
    /// if the budget was not exhausted, no further event is due within it.
    pub fn run(&mut self, horizon: Time, max_cycles: u64) -> (cycles: u64)
        requires
            old(self).inv(),
        ensures
            final(self).inv(),
            cycles <= max_cycles,
            Self::advances(*old(self), *final(self), cycles as nat, horizon),
            cycles < max_cycles ==> !(final(self).next_time().is_finite()
                && final(self).next_time().le_spec(horizon)),
    {
        let mut cycles: u64 = 0;
        while cycles < max_cycles
            invariant
                self.inv(),
                cycles <= max_cycles,
                Self::advances(*old(self), *self, cycles as nat, horizon),
            decreases max_cycles - cycles,
        {
            let tn = self.peek_next_time();
            if tn.is_never() {
                return cycles;
            }
            if !tn.le(horizon) {
                return cycles;
            }
            let ghost pre_cycle = *self;
            let outcome = self.step();
            proof {
                match outcome {
                    StepOutcome::Advanced(t) => {
                        Self::lemma_advances_extend(
                            *old(self),
                            pre_cycle,
                            *self,
                            cycles as nat,
                            t,
                            horizon,
                        );
                    },
                    StepOutcome::Finished => {
                        assert(false);
                    },
                }
            }
            cycles = cycles + 1;
        }
        cycles
    }

    /// The current global simulated time, in ticks.
    pub fn now(&self) -> (t: u64)
        ensures
            t == self.clock,
    {
        self.clock
    }

    /// How many atomic models the flattened structure holds.
    pub fn model_count(&self) -> (n: usize)
        ensures
            n as int == self.n(),
    {
        self.models.len()
    }

    /// A view of one hosted model.
    pub fn model(&self, i: usize) -> (m: &M)
        requires
            i < self.models@.len(),
        ensures
            *m == self.models@[i as int],
    {
        &self.models[i]
    }

    /// What root output port `q` carried during the most recent cycle.
    pub fn emitted_values(&self, q: usize) -> (r: Vec<M::Value>)
        requires
            q < self.emitted@.len(),
        ensures
            r@ == self.emitted@[q as int]@,
    {
        self.emitted[q].to_vec()
    }

    /// Number of root output ports.
    pub fn output_count(&self) -> (n: usize)
        ensures
            n == self.emitted@.len(),
    {
        self.emitted.len()
    }

    /// Number of root input ports.
    pub fn input_count(&self) -> (n: usize)
        ensures
            n == self.pending_in@.len(),
    {
        self.pending_in.len()
    }

    /// End the run and hand the final model states back to the caller.
    pub fn into_models(self) -> (r: Vec<M>)
        ensures
            r@ == self.models@,
    {
        self.models
    }

    /// Time monotonicity.  Across one executed cycle — `pre` and `post`
    /// related as `step`'s contract states — no model's last-transition
    /// time decreases, the global clock does not decrease, and the next
    /// event time never falls below the cycle just executed: it can equal
    /// it only while further events share the same timestamp, and
    /// otherwise strictly increases.
    pub proof fn lemma_time_monotonic(pre: Self, post: Self, t: u64)
        requires
            pre.inv(),
            post.inv(),
            pre.next_time() == Time::Finite(t),
            post.clock == t,
            post.t_last@.len() == pre.n(),
            forall|i: int|
                0 <= i < pre.n() ==> (#[trigger] post.t_last@[i]) == if pre.touched(i) {
                    t
                } else {
                    pre.t_last@[i]
                },
        ensures
            pre.clock <= post.clock,
            forall|i: int| 0 <= i < pre.n() ==> pre.t_last@[i] <= #[trigger] post.t_last@[i],
            Time::Finite(post.clock).le_spec(post.next_time()),
    {
        if !pre.pending_has_input() {
            lemma_min_upto_bound(pre.t_next@, pre.n(), Time::Finite(pre.clock));
        }
        assert(pre.clock <= t);
        assert forall|i: int| 0 <= i < pre.n() implies pre.t_last@[i] <= #[trigger] post.t_last@[i] by {
            assert(pre.t_last@[i] <= pre.clock);
        }
        if !post.pending_has_input() {
            lemma_min_upto_bound(post.t_next@, post.n(), Time::Finite(post.clock));
        }
    }

    /// Output before transition.  What a cycle emits is a function of the
    /// pre-cycle model states and schedule alone: two coordinators that
    /// agree on those emit the same values, whatever their clocks, their
    /// earlier transition times or any other component — so an output can
    /// never observe state mutated by its own cycle's transitions, which
    /// `step` applies only after every output was taken.
    pub proof fn lemma_output_from_pre_state(a: Self, b: Self, q: int)
        requires
            a.models@ == b.models@,
            a.t_next@ == b.t_next@,
            a.root_out_sources@ == b.root_out_sources@,
            a.next_time() == b.next_time(),
            0 <= q < a.root_out_sources@.len(),
        ensures
            a.cycle_emitted(q) == b.cycle_emitted(q),
    {
    }

    /// Port clearing.  Between cycles — in every state satisfying the
    /// invariant, which `new` establishes and `step` re-establishes after
    /// unconditionally clearing every port — every input bag reports
    /// empty; with no further output or injection they stay empty through
    /// any number of cycles, since only deliveries write to them.
    pub proof fn lemma_ports_clear(c: Self)
        requires
            c.inv(),
        ensures
            forall|i: int, p: int|
                #![trigger c.bags@[i]@[p]]
                0 <= i < c.n() && 0 <= p < c.bags@[i]@.len() ==> c.bags@[i]@[p]@.len() == 0,
    {
    }

    /// Fan-out correctness.  One output value whose port is coupled to two
    /// destination input ports appears, unmodified, in both destination
    /// bags within the same cycle.
    pub proof fn lemma_fan_out(c: Self, i: int, w: int, j1: int, j2: int)
        requires
            c.inv(),
            0 <= i < c.n(),
            c.imminent_at(i),
            0 <= w < c.models@[i].output_spec().len(),
            0 <= j1 < c.routes@.len(),
            0 <= j2 < c.routes@.len(),
            c.routes@[j1].src_model == i,
            c.routes@[j1].src_port == c.models@[i].output_spec()[w].port,
            c.routes@[j2].src_model == i,
            c.routes@[j2].src_port == c.models@[i].output_spec()[w].port,
        ensures
            c.cycle_bags()[c.routes@[j1].dst_model as int][c.routes@[j1].dst_port as int].contains(
                c.models@[i].output_spec()[w].value,
            ),
            c.cycle_bags()[c.routes@[j2].dst_model as int][c.routes@[j2].dst_port as int].contains(
                c.models@[i].output_spec()[w].value,
            ),
    {
        let b0 = bags3(c.bags@);
        assert forall|p: int| 0 <= p < c.pending_in@.len() implies eps_fit(
            (#[trigger] c.root_in_targets@[p])@,
            b0,
        ) by {
            assert(eps_valid_in(c.root_in_targets@[p]@, c.models@));
            let eps = c.root_in_targets@[p]@;
            assert forall|k: int| 0 <= k < eps.len() implies {
                let e = #[trigger] eps[k];
                e.model < b0.len() && e.port < b0[e.model as int].len()
            } by {
                assert(c.bags@[eps[k].model as int]@.len()
                    == c.models@[eps[k].model as int].input_decls().len());
            }
        }
        lemma_inject_ports_shape(b0, c.root_in_targets@, c.pending_in@, c.pending_in@.len() as int);
        let b1 = c.bags_after_injection();
        assert(routes_fit(c.routes@, b0)) by {
            assert forall|r: int| 0 <= r < c.routes@.len() implies {
                let rr = #[trigger] c.routes@[r];
                rr.dst_model < b0.len() && rr.dst_port < b0[rr.dst_model as int].len()
            } by {
                assert(route_valid(c.routes@[r], c.models@));
                let rr = c.routes@[r];
                assert(c.bags@[rr.dst_model as int]@.len()
                    == c.models@[rr.dst_model as int].input_decls().len());
            }
        }
        lemma_fit_same_shape(b0, b1);
        lemma_deliver_outputs_complete(
            b1,
            c.routes@,
            c.models@,
            c.t_next@,
            c.next_time(),
            c.n(),
            i,
            w,
            j1,
        );
        lemma_deliver_outputs_complete(
            b1,
            c.routes@,
            c.models@,
            c.t_next@,
            c.next_time(),
            c.n(),
            i,
            w,
            j2,
        );
    }
}

} // verus!
