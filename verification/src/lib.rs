//! A discrete-event simulation kernel in the DEVS style.
//!
//! The crate composes independent state machines ("atomic models") into
//! hierarchical networks ("coupled models") and drives them through simulated
//! time in a reproducible, deterministic order.  Assembly of a network
//! flattens nested coupled models into an arena of atomic models plus an
//! index-based routing table, so that a run is a flat iteration over cycles:
//! compute the next event time, collect outputs of the imminent models, route
//! every value through the couplings, apply the transitions, advance the
//! clocks, and clear every port.

mod atomic;
mod chart;
mod coordinator;
mod coupled;
mod models;
mod pacer;
mod parse;
mod port;
mod time;

pub use atomic::AtomicModel;
pub use chart::{configure_mesh, draw_series_labels, MeshDescription, SeriesLabelDescription};
pub use coordinator::{RootCoordinator, StepOutcome};
pub use pacer::Pacer;
pub use coupled::{AssemblyError, Coupled, Endpoint, Route};
pub use models::{
    efp, is_relay_net, lemma_relay_conservation, relay_network, Generator, Job, JobShopModel,
    JobValue, Processor, Recorder, Relay, Sample, Transducer, EF, TAG_JOB, TAG_STOP,
};
pub use parse::{quaternion_fields, vec3_fields, ParseQuaternionError, ParseVec3Error};
pub use port::{Msg, Port, PortDecl};
pub use time::Time;
