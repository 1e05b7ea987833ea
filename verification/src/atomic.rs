//! The atomic-model capability.
//!
//! An atomic model is state plus four operations: a time advance, an output
//! function, and two transitions.  All four are deterministic and free of
//! side effects beyond the declared state change.  The contracts here are
//! what the coordinator relies on:
//!
//! - `time_advance` returns how long, from the model's last transition, it
//!   will wait before its next internal event.  `Time::Never` means the model
//!   is passive until an external input arrives.  A negative advance cannot
//!   be expressed, so the scheduling invariant cannot be broken from here.
//! - `output` is invoked only on imminent models, strictly before any
//!   transition of the same cycle runs.  It takes `&self`, so it can observe
//!   no state mutated by the cycle that invokes it.  Every message it emits
//!   names a declared output port.
//! - `internal_transition` fires when the model is imminent;
//!   `external_transition` fires when inputs arrived.  When a model is both
//!   imminent and externally triggered in one cycle, the coordinator applies
//!   internal effects first, then external effects with zero elapsed time.
//! - The port interface of a model is static: transitions preserve the
//!   declared ports, so a routing table resolved at assembly time stays
//!   valid for the whole run.

use crate::port::{bags_view, Msg, Port, PortDecl};
use crate::time::Time;
use vstd::prelude::*;

verus! {

/// Whether the concrete declarations `ds` carry exactly the names and tags
/// `decls` promises.
pub open spec fn decls_match(ds: Seq<PortDecl>, decls: Seq<(Seq<char>, u32)>) -> bool {
    &&& ds.len() == decls.len()
    &&& forall|k: int|
        0 <= k < ds.len() ==> (#[trigger] ds[k]).name@ == decls[k].0 && ds[k].tag == decls[k].1
}

pub trait AtomicModel: Sized {
    /// The value type that travels on this model's ports.
    type Value: Copy;

    /// Input-port declarations, in order: the name and the type tag of
    /// each.  The defaults here describe a model with no ports, nothing
    /// scheduled and unconstrained transitions; a model the kernel can say
    /// anything useful about overrides all six descriptions.
    open spec fn input_decls(&self) -> Seq<(Seq<char>, u32)> {
        Seq::empty()
    }

    /// Output-port declarations, in order: the name and the type tag of each.
    open spec fn output_decls(&self) -> Seq<(Seq<char>, u32)> {
        Seq::empty()
    }

    /// The duration, from the last transition, until the next internal
    /// event, given the current state.
    open spec fn ta_spec(&self) -> Time {
        Time::Never
    }

    /// The messages the model emits when imminent, given the current state.
    open spec fn output_spec(&self) -> Seq<Msg<Self::Value>> {
        Seq::empty()
    }

    /// Relation between the state before and after an internal transition.
    open spec fn int_post(&self, next: Self) -> bool {
        true
    }

    /// Relation between the state before and after an external transition
    /// that delivers `inputs` (one bag per input port) after `elapsed` ticks.
    open spec fn ext_post(&self, elapsed: u64, inputs: Seq<Seq<Self::Value>>, next: Self) -> bool {
        true
    }

    /// The input-port declarations as values.  Names are checked for
    /// uniqueness at assembly time.
    fn input_ports(&self) -> (decls: Vec<PortDecl>)
        ensures
            decls_match(decls@, self.input_decls()),
    ;

    /// The output-port declarations as values, as `input_ports`.
    fn output_ports(&self) -> (decls: Vec<PortDecl>)
        ensures
            decls_match(decls@, self.output_decls()),
    ;

    fn time_advance(&self) -> (t: Time)
        ensures
            t == self.ta_spec(),
    ;

    /// The output function.  Must not mutate state (it cannot: it takes
    /// `&self`), and every emitted message names a declared output port.
    fn output(&self) -> (msgs: Vec<Msg<Self::Value>>)
        ensures
            msgs@ == self.output_spec(),
            forall|k: int|
                0 <= k < msgs@.len() ==> (#[trigger] msgs@[k]).port < self.output_decls().len(),
    ;

    fn internal_transition(&mut self)
        ensures
            old(self).int_post(*final(self)),
            final(self).input_decls() == old(self).input_decls(),
            final(self).output_decls() == old(self).output_decls(),
    ;

    /// `elapsed` is the simulated time since this model's last transition;
    /// the coordinator guarantees it never exceeds the current time advance.
    fn external_transition(&mut self, elapsed: u64, inputs: &Vec<Port<Self::Value>>)
        requires
            inputs@.len() == old(self).input_decls().len(),
            Time::Finite(elapsed).le_spec(old(self).ta_spec()),
        ensures
            old(self).ext_post(elapsed, bags_view(inputs@), *final(self)),
            final(self).input_decls() == old(self).input_decls(),
            final(self).output_decls() == old(self).output_decls(),
    ;
}

} // verus!
