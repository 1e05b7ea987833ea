//! A small library of verified atomic models.
//!
//! `Relay` and `Recorder` are generic building blocks: an identity relay
//! that reproduces its input unchanged, and a passive sink that keeps a
//! timestamped history of everything delivered to it.  The job-shop trio —
//! `Generator`, `Processor`, `Transducer` — is a complete worked example: a
//! source that emits jobs periodically until told to stop, a server that
//! processes one job at a time, and an observer that collects arrived and
//! solved jobs and ends the experiment after a fixed observation window.
//! `EF::new` and `efp` assemble them into the classic two-level
//! experimental-frame network.

use crate::atomic::AtomicModel;
use crate::coordinator::{
    bags3, collect_msgs, collect_outputs, deliver_msgs, deliver_outputs, inject_ports,
    inject_values, lemma_collect_msgs_single, lemma_deliver_msgs_no_routes,
    lemma_inject_values_single, RootCoordinator,
};
use crate::coupled::{
    child_names, decl_names, has_name, lemma_cross_routes_singleton, lemma_index_of_name,
    names_unique, spec_decl_names, AssemblyError, Coupled, Endpoint, IcKey, Route,
};
use crate::port::{some_input, Msg, Port, PortDecl};
use crate::time::Time;
use vstd::prelude::*;

verus! {

/// An identity relay: it buffers every value delivered to it and, on its
/// immediately following internal event, reproduces the whole buffer on
/// its output port in arrival order.
pub struct Relay<V> {
    /// Values received and not yet re-emitted, in arrival order.
    pub buffer: Vec<V>,
    /// Remaining time to the next internal event.
    pub sigma: Time,
    /// Type tag of the relayed values, for both ports.
    pub tag: u32,
}

impl<V: Copy> Relay<V> {
    /// A passive relay: nothing buffered, nothing scheduled.
    pub fn new(tag: u32) -> (r: Self)
        ensures
            r.buffer@ == Seq::<V>::empty(),
            r.sigma == Time::Never,
            r.tag == tag,
    {
        Relay { buffer: Vec::new(), sigma: Time::Never, tag }
    }
}

impl<V: Copy> AtomicModel for Relay<V> {
    type Value = V;

    open spec fn input_decls(&self) -> Seq<(Seq<char>, u32)> {
        seq![("i_value"@, self.tag)]
    }

    open spec fn output_decls(&self) -> Seq<(Seq<char>, u32)> {
        seq![("o_value"@, self.tag)]
    }

    open spec fn ta_spec(&self) -> Time {
        self.sigma
    }

    open spec fn output_spec(&self) -> Seq<Msg<V>> {
        self.buffer@.map_values(|v: V| Msg { port: 0usize, value: v })
    }

    open spec fn int_post(&self, next: Self) -> bool {
        &&& next.buffer@ == Seq::<V>::empty()
        &&& next.sigma == Time::Never
        &&& next.tag == self.tag
    }

    open spec fn ext_post(&self, elapsed: u64, inputs: Seq<Seq<V>>, next: Self) -> bool {
        &&& next.buffer@ == self.buffer@ + inputs[0]
        &&& next.sigma == Time::Finite(0)
        &&& next.tag == self.tag
    }

    fn input_ports(&self) -> (decls: Vec<PortDecl>) {
        let mut decls: Vec<PortDecl> = Vec::new();
        decls.push(PortDecl { name: "i_value".to_owned(), tag: self.tag });
        decls
    }

    fn output_ports(&self) -> (decls: Vec<PortDecl>) {
        let mut decls: Vec<PortDecl> = Vec::new();
        decls.push(PortDecl { name: "o_value".to_owned(), tag: self.tag });
        decls
    }

    fn time_advance(&self) -> (t: Time) {
        self.sigma
    }

    fn output(&self) -> (msgs: Vec<Msg<V>>) {
        let mut msgs: Vec<Msg<V>> = Vec::new();
        let n = self.buffer.len();
        let mut k: usize = 0;
        while k < n
            invariant
                k <= n,
                n == self.buffer@.len(),
                msgs@ == self.buffer@.take(k as int).map_values(
                    |v: V| Msg { port: 0usize, value: v },
                ),
            decreases n - k,
        {
            msgs.push(Msg { port: 0, value: self.buffer[k] });
            proof {
                let f = |v: V| Msg { port: 0usize, value: v };
                assert(self.buffer@.take(k + 1 as int).map_values(f) =~= self.buffer@.take(
                    k as int,
                ).map_values(f).push(f(self.buffer@[k as int])));
            }
            k = k + 1;
        }
        proof {
            assert(self.buffer@.take(n as int) =~= self.buffer@);
        }
        msgs
    }

    fn internal_transition(&mut self) {
        self.buffer = Vec::new();
        self.sigma = Time::Never;
    }

    fn external_transition(&mut self, elapsed: u64, inputs: &Vec<Port<V>>) {
        let arrived = inputs[0].to_vec();
        let n = arrived.len();
        let mut k: usize = 0;
        while k < n
            invariant
                k <= n,
                n == arrived@.len(),
                self.buffer@ == old(self).buffer@ + arrived@.take(k as int),
                self.sigma == old(self).sigma,
                self.tag == old(self).tag,
            decreases n - k,
        {
            self.buffer.push(arrived[k]);
            proof {
                assert(old(self).buffer@ + arrived@.take(k + 1 as int) =~= (old(self).buffer@
                    + arrived@.take(k as int)).push(arrived@[k as int]));
            }
            k = k + 1;
        }
        proof {
            assert(arrived@.take(n as int) =~= arrived@);
        }
        self.sigma = Time::Finite(0);
    }
}

/// A timestamped observation.
#[derive(Clone, Copy, Debug)]
pub struct Sample<V> {
    /// Simulated arrival time, in ticks.
    pub time: u64,
    /// The value delivered.
    pub value: V,
}

/// A passive history sink: it never schedules anything of its own and
/// appends every value delivered to it, with its simulated arrival time,
/// to an in-memory sequence that survives the run.
pub struct Recorder<V> {
    /// Everything received so far, in delivery order.
    pub history: Vec<Sample<V>>,
    /// Simulated time of the most recent delivery.
    pub t: u64,
    /// Type tag of the recorded values.
    pub tag: u32,
}

/// The samples taken when `vals` arrive together at time `t`.
pub open spec fn samples_at<V>(t: u64, vals: Seq<V>) -> Seq<Sample<V>> {
    vals.map_values(|v: V| Sample { time: t, value: v })
}

impl<V: Copy> Recorder<V> {
    /// An empty recorder starting at time zero.
    pub fn new(tag: u32) -> (r: Self)
        ensures
            r.history@ == Seq::<Sample<V>>::empty(),
            r.t == 0,
            r.tag == tag,
    {
        Recorder { history: Vec::new(), t: 0, tag }
    }

    /// The recorded history, in delivery order.
    pub fn history(&self) -> (h: &Vec<Sample<V>>)
        ensures
            h@ == self.history@,
    {
        &self.history
    }
}

impl<V: Copy> AtomicModel for Recorder<V> {
    type Value = V;

    open spec fn input_decls(&self) -> Seq<(Seq<char>, u32)> {
        seq![("i_value"@, self.tag)]
    }

    open spec fn output_decls(&self) -> Seq<(Seq<char>, u32)> {
        Seq::empty()
    }

    open spec fn ta_spec(&self) -> Time {
        Time::Never
    }

    open spec fn output_spec(&self) -> Seq<Msg<V>> {
        Seq::empty()
    }

    open spec fn int_post(&self, next: Self) -> bool {
        next == *self
    }

    open spec fn ext_post(&self, elapsed: u64, inputs: Seq<Seq<V>>, next: Self) -> bool {
        &&& next.t == if self.t + elapsed <= u64::MAX {
            (self.t + elapsed) as u64
        } else {
            u64::MAX
        }
        &&& next.history@ == self.history@ + samples_at(next.t, inputs[0])
        &&& next.tag == self.tag
    }

    fn input_ports(&self) -> (decls: Vec<PortDecl>) {
        let mut decls: Vec<PortDecl> = Vec::new();
        decls.push(PortDecl { name: "i_value".to_owned(), tag: self.tag });
        decls
    }

    fn output_ports(&self) -> (decls: Vec<PortDecl>) {
        Vec::new()
    }

    fn time_advance(&self) -> (t: Time) {
        Time::Never
    }

    fn output(&self) -> (msgs: Vec<Msg<V>>) {
        Vec::new()
    }

    fn internal_transition(&mut self) {
    }

    fn external_transition(&mut self, elapsed: u64, inputs: &Vec<Port<V>>) {
        self.t = self.t.saturating_add(elapsed);
        let now = self.t;
        let arrived = inputs[0].to_vec();
        let n = arrived.len();
        let mut k: usize = 0;
        while k < n
            invariant
                k <= n,
                n == arrived@.len(),
                now == self.t,
                self.history@ == old(self).history@ + samples_at(now, arrived@.take(k as int)),
                self.tag == old(self).tag,
            decreases n - k,
        {
            self.history.push(Sample { time: now, value: arrived[k] });
            proof {
                let f = |v: V| Sample { time: now, value: v };
                assert(samples_at(now, arrived@.take(k + 1 as int)) =~= samples_at(
                    now,
                    arrived@.take(k as int),
                ).push(f(arrived@[k as int])));
            }
            k = k + 1;
        }
        proof {
            assert(arrived@.take(n as int) =~= arrived@);
        }
    }
}

/// Type tag of ports carrying jobs.
pub const TAG_JOB: u32 = 1;

/// Type tag of ports carrying the stop signal.
pub const TAG_STOP: u32 = 2;

/// A unit of work travelling through the job shop.
#[derive(Clone, Copy, Debug, PartialEq, Eq, Structural)]
pub struct Job {
    /// Sequence number given by the generator.
    pub id: u64,
    /// Simulated time at which the generator created it.
    pub created: u64,
}

/// What travels on the job-shop network's ports: a job, or the stop
/// signal that ends the experiment.
#[derive(Clone, Copy, Debug, PartialEq, Eq, Structural)]
pub enum JobValue {
    Job(Job),
    Stop,
}

/// The job a value carries, if it carries one.
pub open spec fn job_payload(v: JobValue) -> Option<Job> {
    match v {
        JobValue::Job(j) => Some(j),
        JobValue::Stop => None,
    }
}

/// The jobs among a bag of values, in arrival order.
pub open spec fn jobs_of(s: Seq<JobValue>) -> Seq<Job>
    decreases s.len(),
{
    if s.len() == 0 {
        Seq::empty()
    } else {
        jobs_of(s.drop_last()) + match s.last() {
            JobValue::Job(j) => seq![j],
            JobValue::Stop => Seq::empty(),
        }
    }
}

/// Append the jobs found in `from` to `into`.
fn extend_with_jobs(into: &mut Vec<Job>, from: &Port<JobValue>)
    ensures
        final(into)@ == old(into)@ + jobs_of(from@),
{
    let n = from.len();
    let mut k: usize = 0;
    while k < n
        invariant
            k <= n,
            n == from@.len(),
            into@ == old(into)@ + jobs_of(from@.take(k as int)),
        decreases n - k,
    {
        proof {
            assert(from@.take(k + 1 as int).drop_last() =~= from@.take(k as int));
            assert(from@.take(k + 1 as int).last() == from@[k as int]);
        }
        match *from.get(k) {
            JobValue::Job(j) => {
                into.push(j);
            },
            JobValue::Stop => {
            },
        }
        k = k + 1;
    }
    proof {
        assert(from@.take(n as int) =~= from@);
    }
}

/// The job source: every `period` ticks it emits one freshly numbered,
/// timestamped job, until any value arrives on its stop port, which makes
/// it passive for good.
pub struct Generator {
    /// Ticks between two emissions.
    pub period: u64,
    /// Remaining time to the next emission; `Never` once stopped.
    pub sigma: Time,
    /// Sequence number of the next job.
    pub count: u64,
    /// Simulated time of this model's last transition.
    pub t: u64,
}

impl Generator {
    /// A running generator whose first job is due after one period.
    pub fn new(period: u64) -> (g: Self)
        ensures
            g.period == period,
            g.sigma == Time::Finite(period),
            g.count == 0,
            g.t == 0,
    {
        Generator { period, sigma: Time::Finite(period), count: 0, t: 0 }
    }
}

impl AtomicModel for Generator {
    type Value = JobValue;

    open spec fn input_decls(&self) -> Seq<(Seq<char>, u32)> {
        seq![("i_stop"@, TAG_STOP)]
    }

    open spec fn output_decls(&self) -> Seq<(Seq<char>, u32)> {
        seq![("o_job"@, TAG_JOB)]
    }

    open spec fn ta_spec(&self) -> Time {
        self.sigma
    }

    open spec fn output_spec(&self) -> Seq<Msg<JobValue>> {
        seq![Msg { port: 0usize, value: JobValue::Job(Job { id: self.count, created: self.t }) }]
    }

    open spec fn int_post(&self, next: Self) -> bool {
        &&& next.period == self.period
        &&& next.sigma == Time::Finite(self.period)
        &&& next.count == if self.count == u64::MAX {
            0u64
        } else {
            (self.count + 1) as u64
        }
        &&& next.t == if self.sigma is Finite {
            if self.t + self.sigma.ticks() <= u64::MAX {
                (self.t + self.sigma.ticks()) as u64
            } else {
                u64::MAX
            }
        } else {
            self.t
        }
    }

    open spec fn ext_post(&self, elapsed: u64, inputs: Seq<Seq<JobValue>>, next: Self) -> bool {
        &&& next.period == self.period
        &&& next.count == self.count
        &&& next.t == if self.t + elapsed <= u64::MAX {
            (self.t + elapsed) as u64
        } else {
            u64::MAX
        }
        &&& next.sigma == if inputs[0].len() > 0 {
            Time::Never
        } else {
            self.sigma.minus_spec(elapsed)
        }
    }

    fn input_ports(&self) -> (decls: Vec<PortDecl>) {
        let mut decls: Vec<PortDecl> = Vec::new();
        decls.push(PortDecl { name: "i_stop".to_owned(), tag: TAG_STOP });
        decls
    }

    fn output_ports(&self) -> (decls: Vec<PortDecl>) {
        let mut decls: Vec<PortDecl> = Vec::new();
        decls.push(PortDecl { name: "o_job".to_owned(), tag: TAG_JOB });
        decls
    }

    fn time_advance(&self) -> (t: Time) {
        self.sigma
    }

    fn output(&self) -> (msgs: Vec<Msg<JobValue>>) {
        let mut msgs: Vec<Msg<JobValue>> = Vec::new();
        msgs.push(Msg { port: 0, value: JobValue::Job(Job { id: self.count, created: self.t }) });
        proof {
            assert(msgs@ =~= self.output_spec());
        }
        msgs
    }

    fn internal_transition(&mut self) {
        match self.sigma {
            Time::Finite(d) => {
                self.t = self.t.saturating_add(d);
            },
            Time::Never => {
            },
        }
        self.sigma = Time::Finite(self.period);
        if self.count == u64::MAX {
            self.count = 0;
        } else {
            self.count = self.count + 1;
        }
    }

    fn external_transition(&mut self, elapsed: u64, inputs: &Vec<Port<JobValue>>) {
        self.t = self.t.saturating_add(elapsed);
        if inputs[0].len() > 0 {
            self.sigma = Time::Never;
        } else {
            self.sigma = self.sigma.minus(elapsed);
        }
    }
}

/// The server: it accepts one job at a time, holds it for a fixed
/// processing time, then emits it as solved and becomes free again.  Jobs
/// arriving while busy are discarded, as a single-place shop does.
pub struct Processor {
    /// Ticks needed to process one job.
    pub period: u64,
    /// Remaining processing time; `Never` while idle.
    pub sigma: Time,
    /// The job in service, if any.
    pub job: Option<Job>,
}

impl Processor {
    /// An idle processor.
    pub fn new(period: u64) -> (p: Self)
        ensures
            p.period == period,
            p.sigma == Time::Never,
            p.job is None,
    {
        Processor { period, sigma: Time::Never, job: None }
    }
}

impl AtomicModel for Processor {
    type Value = JobValue;

    open spec fn input_decls(&self) -> Seq<(Seq<char>, u32)> {
        seq![("i_job"@, TAG_JOB)]
    }

    open spec fn output_decls(&self) -> Seq<(Seq<char>, u32)> {
        seq![("o_job"@, TAG_JOB)]
    }

    open spec fn ta_spec(&self) -> Time {
        self.sigma
    }

    open spec fn output_spec(&self) -> Seq<Msg<JobValue>> {
        match self.job {
            Some(j) => seq![Msg { port: 0usize, value: JobValue::Job(j) }],
            None => Seq::empty(),
        }
    }

    open spec fn int_post(&self, next: Self) -> bool {
        &&& next.period == self.period
        &&& next.sigma == Time::Never
        &&& next.job is None
    }

    open spec fn ext_post(&self, elapsed: u64, inputs: Seq<Seq<JobValue>>, next: Self) -> bool {
        let takes = self.job is None && inputs[0].len() > 0 && job_payload(inputs[0][0]) is Some;
        &&& next.period == self.period
        &&& if takes {
            next.job == job_payload(inputs[0][0]) && next.sigma == Time::Finite(self.period)
        } else {
            next.job == self.job && next.sigma == self.sigma.minus_spec(elapsed)
        }
    }

    fn input_ports(&self) -> (decls: Vec<PortDecl>) {
        let mut decls: Vec<PortDecl> = Vec::new();
        decls.push(PortDecl { name: "i_job".to_owned(), tag: TAG_JOB });
        decls
    }

    fn output_ports(&self) -> (decls: Vec<PortDecl>) {
        let mut decls: Vec<PortDecl> = Vec::new();
        decls.push(PortDecl { name: "o_job".to_owned(), tag: TAG_JOB });
        decls
    }

    fn time_advance(&self) -> (t: Time) {
        self.sigma
    }

    fn output(&self) -> (msgs: Vec<Msg<JobValue>>) {
        let mut msgs: Vec<Msg<JobValue>> = Vec::new();
        match self.job {
            Some(j) => {
                msgs.push(Msg { port: 0, value: JobValue::Job(j) });
                proof {
                    assert(msgs@ =~= self.output_spec());
                }
            },
            None => {
            },
        }
        msgs
    }

    fn internal_transition(&mut self) {
        self.sigma = Time::Never;
        self.job = None;
    }

    fn external_transition(&mut self, elapsed: u64, inputs: &Vec<Port<JobValue>>) {
        if self.job.is_none() && inputs[0].len() > 0 {
            match *inputs[0].get(0) {
                JobValue::Job(j) => {
                    self.job = Some(j);
                    self.sigma = Time::Finite(self.period);
                },
                JobValue::Stop => {
                    self.sigma = self.sigma.minus(elapsed);
                },
            }
        } else {
            self.sigma = self.sigma.minus(elapsed);
        }
    }
}

/// The observer: it collects every arrived and every solved job and, once
/// its observation window has elapsed, emits the stop signal and becomes
/// passive.
pub struct Transducer {
    /// Remaining observation time; `Never` once the experiment ended.
    pub sigma: Time,
    /// Jobs seen on the arrival port, in order.
    pub arrived: Vec<Job>,
    /// Jobs seen on the solved port, in order.
    pub solved: Vec<Job>,
}

impl Transducer {
    /// An observer that will call the experiment off after `observation`
    /// ticks.
    pub fn new(observation: u64) -> (t: Self)
        ensures
            t.sigma == Time::Finite(observation),
            t.arrived@ == Seq::<Job>::empty(),
            t.solved@ == Seq::<Job>::empty(),
    {
        Transducer { sigma: Time::Finite(observation), arrived: Vec::new(), solved: Vec::new() }
    }

    /// Jobs seen on the arrival port so far.
    pub fn arrived_jobs(&self) -> (r: &Vec<Job>)
        ensures
            r@ == self.arrived@,
    {
        &self.arrived
    }

    /// Jobs seen on the solved port so far.
    pub fn solved_jobs(&self) -> (r: &Vec<Job>)
        ensures
            r@ == self.solved@,
    {
        &self.solved
    }
}

impl AtomicModel for Transducer {
    type Value = JobValue;

    open spec fn input_decls(&self) -> Seq<(Seq<char>, u32)> {
        seq![("i_arrived_Job"@, TAG_JOB), ("i_solved_Job"@, TAG_JOB)]
    }

    open spec fn output_decls(&self) -> Seq<(Seq<char>, u32)> {
        seq![("o_stop"@, TAG_STOP)]
    }

    open spec fn ta_spec(&self) -> Time {
        self.sigma
    }

    open spec fn output_spec(&self) -> Seq<Msg<JobValue>> {
        seq![Msg { port: 0usize, value: JobValue::Stop }]
    }

    open spec fn int_post(&self, next: Self) -> bool {
        &&& next.sigma == Time::Never
        &&& next.arrived@ == self.arrived@
        &&& next.solved@ == self.solved@
    }

    open spec fn ext_post(&self, elapsed: u64, inputs: Seq<Seq<JobValue>>, next: Self) -> bool {
        &&& next.sigma == self.sigma.minus_spec(elapsed)
        &&& next.arrived@ == self.arrived@ + jobs_of(inputs[0])
        &&& next.solved@ == self.solved@ + jobs_of(inputs[1])
    }

    fn input_ports(&self) -> (decls: Vec<PortDecl>) {
        let mut decls: Vec<PortDecl> = Vec::new();
        decls.push(PortDecl { name: "i_arrived_Job".to_owned(), tag: TAG_JOB });
        decls.push(PortDecl { name: "i_solved_Job".to_owned(), tag: TAG_JOB });
        decls
    }

    fn output_ports(&self) -> (decls: Vec<PortDecl>) {
        let mut decls: Vec<PortDecl> = Vec::new();
        decls.push(PortDecl { name: "o_stop".to_owned(), tag: TAG_STOP });
        decls
    }

    fn time_advance(&self) -> (t: Time) {
        self.sigma
    }

    fn output(&self) -> (msgs: Vec<Msg<JobValue>>) {
        let mut msgs: Vec<Msg<JobValue>> = Vec::new();
        msgs.push(Msg { port: 0, value: JobValue::Stop });
        proof {
            assert(msgs@ =~= self.output_spec());
        }
        msgs
    }

    fn internal_transition(&mut self) {
        self.sigma = Time::Never;
    }

    fn external_transition(&mut self, elapsed: u64, inputs: &Vec<Port<JobValue>>) {
        self.sigma = self.sigma.minus(elapsed);
        extend_with_jobs(&mut self.arrived, &inputs[0]);
        extend_with_jobs(&mut self.solved, &inputs[1]);
    }
}

/// One model of the job-shop network.  A coordinator hosts one model
/// type; a network that mixes kinds wraps them in an enum like this one
/// and dispatches each operation to the active variant.
pub enum JobShopModel {
    Generator(Generator),
    Processor(Processor),
    Transducer(Transducer),
}

impl AtomicModel for JobShopModel {
    type Value = JobValue;

    open spec fn input_decls(&self) -> Seq<(Seq<char>, u32)> {
        match self {
            JobShopModel::Generator(g) => g.input_decls(),
            JobShopModel::Processor(p) => p.input_decls(),
            JobShopModel::Transducer(t) => t.input_decls(),
        }
    }

    open spec fn output_decls(&self) -> Seq<(Seq<char>, u32)> {
        match self {
            JobShopModel::Generator(g) => g.output_decls(),
            JobShopModel::Processor(p) => p.output_decls(),
            JobShopModel::Transducer(t) => t.output_decls(),
        }
    }

    open spec fn ta_spec(&self) -> Time {
        match self {
            JobShopModel::Generator(g) => g.ta_spec(),
            JobShopModel::Processor(p) => p.ta_spec(),
            JobShopModel::Transducer(t) => t.ta_spec(),
        }
    }

    open spec fn output_spec(&self) -> Seq<Msg<JobValue>> {
        match self {
            JobShopModel::Generator(g) => g.output_spec(),
            JobShopModel::Processor(p) => p.output_spec(),
            JobShopModel::Transducer(t) => t.output_spec(),
        }
    }

    open spec fn int_post(&self, next: Self) -> bool {
        match (self, next) {
            (JobShopModel::Generator(g), JobShopModel::Generator(g2)) => g.int_post(g2),
            (JobShopModel::Processor(p), JobShopModel::Processor(p2)) => p.int_post(p2),
            (JobShopModel::Transducer(t), JobShopModel::Transducer(t2)) => t.int_post(t2),
            _ => false,
        }
    }

    open spec fn ext_post(&self, elapsed: u64, inputs: Seq<Seq<JobValue>>, next: Self) -> bool {
        match (self, next) {
            (JobShopModel::Generator(g), JobShopModel::Generator(g2)) => g.ext_post(
                elapsed,
                inputs,
                g2,
            ),
            (JobShopModel::Processor(p), JobShopModel::Processor(p2)) => p.ext_post(
                elapsed,
                inputs,
                p2,
            ),
            (JobShopModel::Transducer(t), JobShopModel::Transducer(t2)) => t.ext_post(
                elapsed,
                inputs,
                t2,
            ),
            _ => false,
        }
    }

    fn input_ports(&self) -> (decls: Vec<PortDecl>) {
        match self {
            JobShopModel::Generator(g) => g.input_ports(),
            JobShopModel::Processor(p) => p.input_ports(),
            JobShopModel::Transducer(t) => t.input_ports(),
        }
    }

    fn output_ports(&self) -> (decls: Vec<PortDecl>) {
        match self {
            JobShopModel::Generator(g) => g.output_ports(),
            JobShopModel::Processor(p) => p.output_ports(),
            JobShopModel::Transducer(t) => t.output_ports(),
        }
    }

    fn time_advance(&self) -> (t: Time) {
        match self {
            JobShopModel::Generator(g) => g.time_advance(),
            JobShopModel::Processor(p) => p.time_advance(),
            JobShopModel::Transducer(t) => t.time_advance(),
        }
    }

    fn output(&self) -> (msgs: Vec<Msg<JobValue>>) {
        match self {
            JobShopModel::Generator(g) => g.output(),
            JobShopModel::Processor(p) => p.output(),
            JobShopModel::Transducer(t) => t.output(),
        }
    }

    fn internal_transition(&mut self) {
        match self {
            JobShopModel::Generator(g) => g.internal_transition(),
            JobShopModel::Processor(p) => p.internal_transition(),
            JobShopModel::Transducer(t) => t.internal_transition(),
        }
    }

    fn external_transition(&mut self, elapsed: u64, inputs: &Vec<Port<JobValue>>) {
        match self {
            JobShopModel::Generator(g) => g.external_transition(elapsed, inputs),
            JobShopModel::Processor(p) => p.external_transition(elapsed, inputs),
            JobShopModel::Transducer(t) => t.external_transition(elapsed, inputs),
        }
    }
}

/// The experimental frame: a coupled model holding the generator and the
/// transducer.  Arriving jobs feed the transducer's arrival record; solved
/// jobs enter through the frame's own input port; the generated jobs leave
/// through the frame's own output port; and the transducer's stop signal
/// silences the generator.
pub struct EF {
    pub coupled: Coupled<JobShopModel>,
}

impl EF {
    /// Assemble the experimental frame.  `generate` is the generator's
    /// period, `analyze` the transducer's observation window, both in
    /// ticks.  Every name resolves and every tag agrees, so assembly never
    /// fails, and the resolved structure is pinned down: the generator's
    /// output feeds both the transducer's arrival port and the frame's own
    /// output port, the frame's own input port reaches exactly the
    /// transducer's solved-jobs port, and the transducer's stop signal
    /// feeds the generator.
    pub fn new(name: &str, generate: u64, analyze: u64) -> (r: Result<EF, AssemblyError>)
        ensures
            match r {
                Ok(ef) => {
                    &&& ef.coupled.wf()
                    &&& ef.coupled.models@.len() == 2
                    &&& ef.coupled.models@[0].name@ == "Generator"@
                    &&& ef.coupled.models@[0].model is Generator
                    &&& ef.coupled.models@[1].name@ == "Transducer"@
                    &&& ef.coupled.models@[1].model is Transducer
                    &&& ef.coupled.in_decls@.len() == 1
                    &&& ef.coupled.in_decls@[0].name@ == "i_job"@
                    &&& ef.coupled.in_decls@[0].tag == TAG_JOB
                    &&& ef.coupled.out_decls@.len() == 1
                    &&& ef.coupled.out_decls@[0].name@ == "o_job"@
                    &&& ef.coupled.out_decls@[0].tag == TAG_JOB
                    &&& ef.coupled.routes@ == seq![
                        // generator output to the transducer's arrival port
                        Route { src_model: 0, src_port: 0, dst_model: 1, dst_port: 0 },
                        // transducer stop signal back to the generator
                        Route { src_model: 1, src_port: 0, dst_model: 0, dst_port: 0 },
                    ]
                    &&& ef.coupled.in_targets@.len() == 1
                    // the frame's input reaches only the transducer's
                    // solved-jobs port
                    &&& ef.coupled.in_targets@[0]@ == seq![Endpoint { model: 1, port: 1 }]
                    &&& ef.coupled.out_sources@.len() == 1
                    // the frame's output is fed only by the generator
                    &&& ef.coupled.out_sources@[0]@ == seq![Endpoint { model: 0, port: 0 }]
                },
                Err(_) => false,
            },
    {
        let mut coupled = Coupled::<JobShopModel>::new(name);
        match coupled.add_in_port("i_job", TAG_JOB) {
            Ok(()) => {
            },
            Err(e) => {
                proof {
                    assert(false);
                }
                return Err(e);
            },
        }
        match coupled.add_out_port("o_job", TAG_JOB) {
            Ok(()) => {
            },
            Err(e) => {
                proof {
                    assert(false);
                }
                return Err(e);
            },
        }
        let g = Generator::new(generate);
        let t = Transducer::new(analyze);
        let gm = JobShopModel::Generator(g);
        let tm = JobShopModel::Transducer(t);
        match coupled.add_atomic("Generator", gm) {
            Ok(()) => {
            },
            Err(e) => {
                proof {
                    assert(names_unique(spec_decl_names(gm.input_decls())));
                    assert(names_unique(spec_decl_names(gm.output_decls())));
                    assert(false);
                }
                return Err(e);
            },
        }
        proof {
            assert(child_names(coupled.children@)[0] == "Generator"@);
            reveal_strlit("Generator");
            reveal_strlit("Transducer");
            reveal_strlit("i_arrived_Job");
            reveal_strlit("i_solved_Job");
        }
        match coupled.add_atomic("Transducer", tm) {
            Ok(()) => {
            },
            Err(e) => {
                proof {
                    assert(names_unique(spec_decl_names(tm.input_decls()))) by {
                        assert(spec_decl_names(tm.input_decls())[0] == "i_arrived_Job"@);
                        assert(spec_decl_names(tm.input_decls())[1] == "i_solved_Job"@);
                        assert("i_arrived_Job"@.len() != "i_solved_Job"@.len());
                    }
                    assert(names_unique(spec_decl_names(tm.output_decls())));
                    assert(!has_name(child_names(coupled.children@), "Transducer"@)) by {
                        assert("Generator"@.len() != "Transducer"@.len());
                    }
                    assert(false);
                }
                return Err(e);
            },
        }
        proof {
            assert(child_names(coupled.children@)[0] == "Generator"@);
            assert(child_names(coupled.children@)[1] == "Transducer"@);
            assert(decl_names(coupled.children@[0].out_decls@)[0] == "o_job"@);
            assert(decl_names(coupled.children@[0].in_decls@)[0] == "i_stop"@);
            assert(decl_names(coupled.children@[1].in_decls@)[0] == "i_arrived_Job"@);
            assert(decl_names(coupled.children@[1].in_decls@)[1] == "i_solved_Job"@);
            assert(decl_names(coupled.children@[1].out_decls@)[0] == "o_stop"@);
            assert(decl_names(coupled.in_decls@)[0] == "i_job"@);
            assert(decl_names(coupled.out_decls@)[0] == "o_job"@);
            assert(coupled.children@[0].out_sources@[0]@ == seq![Endpoint { model: 0, port: 0 }]);
            assert(coupled.children@[0].in_targets@[0]@ == seq![Endpoint { model: 0, port: 0 }]);
            assert(coupled.children@[1].in_targets@[0]@ == seq![Endpoint { model: 1, port: 0 }]);
            assert(coupled.children@[1].in_targets@[1]@ == seq![Endpoint { model: 1, port: 1 }]);
            assert(coupled.children@[1].out_sources@[0]@ == seq![Endpoint { model: 1, port: 0 }]);
        }
        let ghost c1 = coupled;
        proof {
            lemma_index_of_name(child_names(c1.children@), "Generator"@, 0);
            lemma_index_of_name(child_names(c1.children@), "Transducer"@, 1);
            assert(crate::coupled::child_wf(c1.children@[0], c1.models@));
            assert(crate::coupled::child_wf(c1.children@[1], c1.models@));
            lemma_index_of_name(decl_names(c1.children@[0].out_decls@), "o_job"@, 0);
            lemma_index_of_name(decl_names(c1.children@[1].in_decls@), "i_arrived_Job"@, 0);
        }
        match coupled.add_ic("Generator", "o_job", "Transducer", "i_arrived_Job") {
            Ok(()) => {
            },
            Err(e) => {
                proof {
                    assert(false);
                }
                return Err(e);
            },
        }
        let ghost c2 = coupled;
        proof {
            lemma_cross_routes_singleton(
                Endpoint { model: 0, port: 0 },
                Endpoint { model: 1, port: 0 },
            );
            assert(c2.routes@ =~= seq![Route { src_model: 0, src_port: 0, dst_model: 1, dst_port: 0 }]);
            assert(c2.ics@ == seq![
                IcKey { src_child: 0, src_port: 0, dst_child: 1, dst_port: 0 },
            ]);
            lemma_index_of_name(child_names(c2.children@), "Generator"@, 0);
            lemma_index_of_name(child_names(c2.children@), "Transducer"@, 1);
            assert(crate::coupled::child_wf(c2.children@[0], c2.models@));
            assert(crate::coupled::child_wf(c2.children@[1], c2.models@));
            lemma_index_of_name(decl_names(c2.children@[1].out_decls@), "o_stop"@, 0);
            lemma_index_of_name(decl_names(c2.children@[0].in_decls@), "i_stop"@, 0);
        }
        match coupled.add_ic("Transducer", "o_stop", "Generator", "i_stop") {
            Ok(()) => {
            },
            Err(e) => {
                proof {
                    assert(false);
                }
                return Err(e);
            },
        }
        let ghost c3 = coupled;
        proof {
            lemma_cross_routes_singleton(
                Endpoint { model: 1, port: 0 },
                Endpoint { model: 0, port: 0 },
            );
            assert(c3.routes@ =~= seq![
                Route { src_model: 0, src_port: 0, dst_model: 1, dst_port: 0 },
                Route { src_model: 1, src_port: 0, dst_model: 0, dst_port: 0 },
            ]);
            lemma_index_of_name(child_names(c3.children@), "Transducer"@, 1);
            assert(crate::coupled::child_wf(c3.children@[1], c3.models@));
            lemma_index_of_name(decl_names(c3.in_decls@), "i_job"@, 0);
            lemma_index_of_name(decl_names(c3.children@[1].in_decls@), "i_solved_Job"@, 1);
        }
        match coupled.add_eic("i_job", "Transducer", "i_solved_Job") {
            Ok(()) => {
            },
            Err(e) => {
                proof {
                    assert(false);
                }
                return Err(e);
            },
        }
        let ghost c4 = coupled;
        proof {
            assert(c4.in_targets@[0]@ =~= seq![Endpoint { model: 1, port: 1 }]);
            lemma_index_of_name(child_names(c4.children@), "Generator"@, 0);
            assert(crate::coupled::child_wf(c4.children@[0], c4.models@));
            lemma_index_of_name(decl_names(c4.out_decls@), "o_job"@, 0);
            lemma_index_of_name(decl_names(c4.children@[0].out_decls@), "o_job"@, 0);
        }
        match coupled.add_eoc("Generator", "o_job", "o_job") {
            Ok(()) => {
            },
            Err(e) => {
                proof {
                    assert(false);
                }
                return Err(e);
            },
        }
        proof {
            assert(coupled.out_sources@[0]@ =~= seq![Endpoint { model: 0, port: 0 }]);
        }
        Ok(EF { coupled })
    }
}

/// The full experimental-frame-and-processor network: the frame's jobs
/// feed the processor, and the processor's solved jobs feed back into the
/// frame.  `g_time` is the generation period, `p_time` the processing
/// time, `t_time` the observation window, all in ticks.  Assembly never
/// fails, and the two feedback couplings flatten to exactly the four-route
/// table stated here: the frame's internal routes, the frame's output
/// (fed by the generator) into the processor, and the processor's output
/// back through the frame's input to the transducer's solved-jobs port.
pub fn efp(g_time: u64, p_time: u64, t_time: u64) -> (r: Result<Coupled<JobShopModel>, AssemblyError>)
    ensures
        match r {
            Ok(c) => {
                &&& c.wf()
                &&& c.models@.len() == 3
                &&& c.models@[0].name@ == "Generator"@
                &&& c.models@[0].model is Generator
                &&& c.models@[1].name@ == "Transducer"@
                &&& c.models@[1].model is Transducer
                &&& c.models@[2].name@ == "Processor"@
                &&& c.models@[2].model is Processor
                &&& c.routes@ == seq![
                    // generator output to the transducer's arrival port
                    Route { src_model: 0, src_port: 0, dst_model: 1, dst_port: 0 },
                    // transducer stop signal back to the generator
                    Route { src_model: 1, src_port: 0, dst_model: 0, dst_port: 0 },
                    // generator output, through the frame's output port,
                    // to the processor
                    Route { src_model: 0, src_port: 0, dst_model: 2, dst_port: 0 },
                    // processor output, through the frame's input port,
                    // to the transducer's solved-jobs port
                    Route { src_model: 2, src_port: 0, dst_model: 1, dst_port: 1 },
                ]
            },
            Err(_) => false,
        },
{
    let mut net = Coupled::<JobShopModel>::new("EFP");
    let ef = match EF::new("EF", g_time, t_time) {
        Ok(ef) => ef,
        Err(e) => {
            proof {
                assert(false);
            }
            return Err(e);
        },
    };
    let p = Processor::new(p_time);
    let pm = JobShopModel::Processor(p);
    match net.add_coupled("EF", ef.coupled) {
        Ok(()) => {
        },
        Err(e) => {
            proof {
                assert(false);
            }
            return Err(e);
        },
    }
    proof {
        assert(child_names(net.children@)[0] == "EF"@);
        reveal_strlit("EF");
        reveal_strlit("Processor");
        // The frame joined an empty arena, so its routes and resolved
        // endpoint lists carry over unshifted.
        assert(net.routes@ =~= seq![
            Route { src_model: 0, src_port: 0, dst_model: 1, dst_port: 0 },
            Route { src_model: 1, src_port: 0, dst_model: 0, dst_port: 0 },
        ]) by {
            assert forall|i: int| 0 <= i < net.routes@.len() implies net.routes@[i]
                == ef.coupled.routes@[i] by {
                assert(net.routes@[i] == crate::coupled::offset_route(ef.coupled.routes@[i], 0));
            }
        }
        assert(net.children@[0].in_targets@[0]@ =~= seq![Endpoint { model: 1, port: 1 }]) by {
            assert(net.children@[0].in_targets@[0]@ == ef.coupled.in_targets@[0]@.map_values(
                |e: Endpoint| crate::coupled::offset_ep(e, 0),
            ));
            assert(ef.coupled.in_targets@[0]@.map_values(
                |e: Endpoint| crate::coupled::offset_ep(e, 0),
            )[0] == Endpoint { model: 1, port: 1 });
        }
        assert(net.children@[0].out_sources@[0]@ =~= seq![Endpoint { model: 0, port: 0 }]) by {
            assert(net.children@[0].out_sources@[0]@ == ef.coupled.out_sources@[0]@.map_values(
                |e: Endpoint| crate::coupled::offset_ep(e, 0),
            ));
            assert(ef.coupled.out_sources@[0]@.map_values(
                |e: Endpoint| crate::coupled::offset_ep(e, 0),
            )[0] == Endpoint { model: 0, port: 0 });
        }
    }
    match net.add_atomic("Processor", pm) {
        Ok(()) => {
        },
        Err(e) => {
            proof {
                assert(names_unique(spec_decl_names(pm.input_decls())));
                assert(names_unique(spec_decl_names(pm.output_decls())));
                assert(!has_name(child_names(net.children@), "Processor"@)) by {
                    assert("EF"@.len() != "Processor"@.len());
                }
                assert(false);
            }
            return Err(e);
        },
    }
    proof {
        assert(child_names(net.children@)[0] == "EF"@);
        assert(child_names(net.children@)[1] == "Processor"@);
        assert(decl_names(net.children@[0].out_decls@)[0] == "o_job"@);
        assert(decl_names(net.children@[0].in_decls@)[0] == "i_job"@);
        assert(decl_names(net.children@[1].in_decls@)[0] == "i_job"@);
        assert(decl_names(net.children@[1].out_decls@)[0] == "o_job"@);
        assert(net.children@[1].in_targets@[0]@ == seq![Endpoint { model: 2, port: 0 }]);
        assert(net.children@[1].out_sources@[0]@ == seq![Endpoint { model: 2, port: 0 }]);
    }
    let ghost n1 = net;
    proof {
        lemma_index_of_name(child_names(n1.children@), "EF"@, 0);
        lemma_index_of_name(child_names(n1.children@), "Processor"@, 1);
        assert(crate::coupled::child_wf(n1.children@[0], n1.models@));
        assert(crate::coupled::child_wf(n1.children@[1], n1.models@));
        lemma_index_of_name(decl_names(n1.children@[0].out_decls@), "o_job"@, 0);
        lemma_index_of_name(decl_names(n1.children@[1].in_decls@), "i_job"@, 0);
    }
    match net.add_ic("EF", "o_job", "Processor", "i_job") {
        Ok(()) => {
        },
        Err(e) => {
            proof {
                assert(false);
            }
            return Err(e);
        },
    }
    let ghost n2 = net;
    proof {
        lemma_cross_routes_singleton(
            Endpoint { model: 0, port: 0 },
            Endpoint { model: 2, port: 0 },
        );
        assert(n2.routes@ =~= seq![
            Route { src_model: 0, src_port: 0, dst_model: 1, dst_port: 0 },
            Route { src_model: 1, src_port: 0, dst_model: 0, dst_port: 0 },
            Route { src_model: 0, src_port: 0, dst_model: 2, dst_port: 0 },
        ]);
        assert(n2.ics@ == seq![
            IcKey { src_child: 0, src_port: 0, dst_child: 1, dst_port: 0 },
        ]);
        lemma_index_of_name(child_names(n2.children@), "EF"@, 0);
        lemma_index_of_name(child_names(n2.children@), "Processor"@, 1);
        assert(crate::coupled::child_wf(n2.children@[0], n2.models@));
        assert(crate::coupled::child_wf(n2.children@[1], n2.models@));
        lemma_index_of_name(decl_names(n2.children@[1].out_decls@), "o_job"@, 0);
        lemma_index_of_name(decl_names(n2.children@[0].in_decls@), "i_job"@, 0);
    }
    match net.add_ic("Processor", "o_job", "EF", "i_job") {
        Ok(()) => {
        },
        Err(e) => {
            proof {
                assert(false);
            }
            return Err(e);
        },
    }
    proof {
        lemma_cross_routes_singleton(
            Endpoint { model: 2, port: 0 },
            Endpoint { model: 1, port: 1 },
        );
        assert(net.routes@ =~= seq![
            Route { src_model: 0, src_port: 0, dst_model: 1, dst_port: 0 },
            Route { src_model: 1, src_port: 0, dst_model: 0, dst_port: 0 },
            Route { src_model: 0, src_port: 0, dst_model: 2, dst_port: 0 },
            Route { src_model: 2, src_port: 0, dst_model: 1, dst_port: 1 },
        ]);
    }
    Ok(net)
}

/// The shape of the simplest coupled model: a single identity-relay child
/// whose input is fed by the network's external input port and whose
/// output feeds the network's external output port.
pub open spec fn is_relay_net<V: Copy>(c: RootCoordinator<Relay<V>>) -> bool {
    &&& c.n() == 1
    &&& c.routes@.len() == 0
    &&& c.root_in_targets@.len() == 1
    &&& c.root_in_targets@[0]@ == seq![Endpoint { model: 0usize, port: 0usize }]
    &&& c.root_out_sources@.len() == 1
    &&& c.root_out_sources@[0]@ == seq![Endpoint { model: 0usize, port: 0usize }]
}

/// Assemble a coupled model whose single child is an identity relay and
/// hand it to a coordinator: external input port, the relay, external
/// output port, one external input coupling and one external output
/// coupling.  Every name resolves and every tag agrees, so assembly never
/// fails.
pub fn relay_network<V: Copy>(tag: u32) -> (r: Result<RootCoordinator<Relay<V>>, AssemblyError>)
    ensures
        match r {
            Ok(c) => {
                &&& c.inv()
                &&& is_relay_net(c)
                &&& c.models@[0].buffer@ == Seq::<V>::empty()
                &&& c.models@[0].sigma == Time::Never
                &&& c.clock == 0
                &&& c.pending_in@[0]@.len() == 0
            },
            Err(_) => false,
        },
{
    let mut net = Coupled::<Relay<V>>::new("RelayNet");
    match net.add_in_port("i_value", tag) {
        Ok(()) => {
        },
        Err(e) => {
            proof {
                assert(false);
            }
            return Err(e);
        },
    }
    match net.add_out_port("o_value", tag) {
        Ok(()) => {
        },
        Err(e) => {
            proof {
                assert(false);
            }
            return Err(e);
        },
    }
    let relay = Relay::<V>::new(tag);
    match net.add_atomic("Relay", relay) {
        Ok(()) => {
        },
        Err(e) => {
            proof {
                assert(names_unique(spec_decl_names(relay.input_decls())));
                assert(names_unique(spec_decl_names(relay.output_decls())));
                assert(false);
            }
            return Err(e);
        },
    }
    proof {
        assert(decl_names(net.in_decls@)[0] == "i_value"@);
        assert(decl_names(net.out_decls@)[0] == "o_value"@);
        assert(child_names(net.children@)[0] == "Relay"@);
        assert(decl_names(net.children@[0].in_decls@)[0] == "i_value"@);
        assert(decl_names(net.children@[0].out_decls@)[0] == "o_value"@);
    }
    let ghost before_eic = net;
    proof {
        lemma_index_of_name(child_names(before_eic.children@), "Relay"@, 0);
        lemma_index_of_name(decl_names(before_eic.in_decls@), "i_value"@, 0);
        lemma_index_of_name(decl_names(before_eic.children@[0].in_decls@), "i_value"@, 0);
    }
    match net.add_eic("i_value", "Relay", "i_value") {
        Ok(()) => {
        },
        Err(e) => {
            proof {
                assert(false);
            }
            return Err(e);
        },
    }
    proof {
        assert(net.in_targets@[0]@ =~= seq![Endpoint { model: 0usize, port: 0usize }]);
    }
    let ghost before_eoc = net;
    proof {
        lemma_index_of_name(child_names(before_eoc.children@), "Relay"@, 0);
        lemma_index_of_name(decl_names(before_eoc.out_decls@), "o_value"@, 0);
        lemma_index_of_name(decl_names(before_eoc.children@[0].out_decls@), "o_value"@, 0);
    }
    match net.add_eoc("Relay", "o_value", "o_value") {
        Ok(()) => {
        },
        Err(e) => {
            proof {
                assert(false);
            }
            return Err(e);
        },
    }
    proof {
        assert(net.out_sources@[0]@ =~= seq![Endpoint { model: 0usize, port: 0usize }]);
        assert(net.in_targets@[0]@ =~= seq![Endpoint { model: 0usize, port: 0usize }]);
    }
    let sim = RootCoordinator::new(net);
    Ok(sim)
}

/// Conservation under a pure relay.  Over any one cycle of the relay
/// network, the values the network emits followed by the values the relay
/// still buffers are exactly the values the relay had buffered followed by
/// the values injected for this cycle — nothing is lost, duplicated or
/// reordered.  Summed over a run, every injected value reappears at the
/// external output port, in delivery order.
pub proof fn lemma_relay_conservation<V: Copy>(
    pre: RootCoordinator<Relay<V>>,
    next_model: Relay<V>,
    em: Seq<V>,
    t: u64,
)
    requires
        pre.inv(),
        is_relay_net(pre),
        pre.next_time() == Time::Finite(t),
        pre.transition_post(0, next_model),
        em == pre.cycle_emitted(0),
    ensures
        em + next_model.buffer@ == pre.models@[0].buffer@ + pre.pending_in@[0]@,
{
    let m0 = pre.models@[0];
    let ep = Endpoint { model: 0usize, port: 0usize };
    let tn = pre.next_time();
    let pend = pre.pending_in@[0]@;
    let b0 = bags3(pre.bags@);
    assert(b0.len() == 1);
    assert(m0.input_decls().len() == 1);
    assert(b0[0].len() == 1);
    assert(b0[0][0].len() == 0);
    // After injection, the relay's single input bag holds exactly the
    // injected values.
    assert(inject_ports(b0, pre.root_in_targets@, pre.pending_in@, 0) == b0);
    lemma_inject_values_single(b0, ep, pend, pend.len() as int);
    assert(pend.take(pend.len() as int) =~= pend);
    let bi = pre.bags_after_injection();
    assert(bi == inject_values(b0, seq![ep], pend, pend.len() as int));
    assert(bi[0][0] =~= pend);
    assert(bi.len() == 1);
    assert(bi[0].len() == 1);
    // No internal routes: the output phase leaves the bags unchanged.
    assert(deliver_outputs(bi, pre.routes@, pre.models@, pre.t_next@, tn, 0) == bi);
    if pre.t_next@[0] == tn {
        lemma_deliver_msgs_no_routes(
            bi,
            pre.routes@,
            0,
            m0.output_spec(),
            m0.output_spec().len() as int,
        );
    }
    assert(pre.cycle_bags() == bi);
    assert(pre.delivered(0) == bi[0]);
    assert(pre.delivered(0)[0] =~= pend);
    // What the network emits: the whole buffer if the relay is imminent,
    // nothing otherwise.
    assert(collect_outputs(Seq::<V>::empty(), seq![ep], pre.models@, pre.t_next@, tn, 0)
        == Seq::<V>::empty());
    if pre.imminent_at(0) {
        assert forall|w: int| 0 <= w < m0.output_spec().len() implies (#[trigger] m0.output_spec()[w]).port
            == ep.port by {
            assert(m0.output_spec()[w] == Msg { port: 0usize, value: m0.buffer@[w] });
        }
        lemma_collect_msgs_single(
            Seq::<V>::empty(),
            ep,
            0,
            m0.output_spec(),
            m0.output_spec().len() as int,
        );
        assert(m0.output_spec().take(m0.output_spec().len() as int) =~= m0.output_spec());
        assert(em =~= m0.buffer@) by {
            assert(em == Seq::<V>::empty() + m0.output_spec().map_values(|m: Msg<V>| m.value));
            assert forall|w: int| 0 <= w < m0.buffer@.len() implies m0.output_spec().map_values(
                |m: Msg<V>| m.value,
            )[w] == m0.buffer@[w] by {
                assert(m0.output_spec()[w] == Msg { port: 0usize, value: m0.buffer@[w] });
            }
        }
    } else {
        assert(em == Seq::<V>::empty());
    }
    // Case split on how the relay transitions.
    let some = some_input(pre.delivered(0));
    if some {
        assert(pend.len() > 0) by {
            assert(exists|p: int|
                0 <= p < pre.delivered(0).len() && #[trigger] pre.delivered(0)[p].len() > 0);
        }
    } else {
        assert(pend.len() == 0) by {
            if pend.len() > 0 {
                assert(pre.delivered(0)[0].len() > 0);
            }
        }
        assert(pend =~= Seq::<V>::empty());
    }
    if pre.imminent_at(0) && some {
        let mid = choose|mid: Relay<V>|
            {
                &&& #[trigger] m0.int_post(mid)
                &&& mid.ext_post(0, pre.delivered(0), next_model)
                &&& mid.input_decls() == m0.input_decls()
                &&& mid.output_decls() == m0.output_decls()
            };
        assert(mid.buffer@ == Seq::<V>::empty());
        assert(next_model.buffer@ == mid.buffer@ + pre.delivered(0)[0]);
        assert(next_model.buffer@ =~= pend);
        assert(em + next_model.buffer@ =~= m0.buffer@ + pend);
    } else if pre.imminent_at(0) {
        assert(next_model.buffer@ == Seq::<V>::empty());
        assert(em + next_model.buffer@ =~= m0.buffer@ + pend);
    } else if some {
        assert(next_model.buffer@ == m0.buffer@ + pre.delivered(0)[0]);
        assert(em + next_model.buffer@ =~= m0.buffer@ + pend);
    } else {
        assert(next_model == m0);
        assert(em + next_model.buffer@ =~= m0.buffer@ + pend);
    }
}

} // verus!
