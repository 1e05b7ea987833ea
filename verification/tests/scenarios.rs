use devs_kernel::{
    efp, relay_network, Coupled, Generator, Job, JobShopModel, JobValue, Recorder, Relay,
    RootCoordinator, StepOutcome, Time, TAG_JOB, TAG_STOP,
};

/// A generator wired to the network's border: jobs leave through the
/// external output port, and a stop signal can be injected from outside.
fn generator_network(period: u64) -> RootCoordinator<Generator> {
    let mut net: Coupled<Generator> = Coupled::new("gen_net");
    net.add_in_port("i_stop", TAG_STOP).unwrap();
    net.add_out_port("o_job", TAG_JOB).unwrap();
    net.add_atomic("Generator", Generator::new(period)).unwrap();
    net.add_eic("i_stop", "Generator", "i_stop").unwrap();
    net.add_eoc("Generator", "o_job", "o_job").unwrap();
    RootCoordinator::new(net)
}

#[test]
fn empty_network_finishes_immediately() {
    let net: Coupled<Relay<u64>> = Coupled::new("empty");
    let mut sim = RootCoordinator::new(net);
    assert_eq!(sim.step(), StepOutcome::Finished);
    assert_eq!(sim.now(), 0);
}

#[test]
fn generator_delivers_at_one_two_three_then_never() {
    let mut sim = generator_network(1);
    assert_eq!(sim.step(), StepOutcome::Advanced(1));
    assert_eq!(
        sim.emitted_values(0),
        vec![JobValue::Job(Job { id: 0, created: 0 })]
    );
    assert_eq!(sim.step(), StepOutcome::Advanced(2));
    assert_eq!(
        sim.emitted_values(0),
        vec![JobValue::Job(Job { id: 1, created: 1 })]
    );
    assert_eq!(sim.step(), StepOutcome::Advanced(3));
    assert_eq!(
        sim.emitted_values(0),
        vec![JobValue::Job(Job { id: 2, created: 2 })]
    );
    // Stop the generator: the injected value is due immediately, so the
    // extra cycle runs at the current time and passivates the model.
    sim.inject(0, JobValue::Stop);
    assert_eq!(sim.step(), StepOutcome::Advanced(3));
    assert_eq!(sim.emitted_values(0), Vec::<JobValue>::new());
    assert!(sim.peek_next_time().is_never());
    assert_eq!(sim.step(), StepOutcome::Finished);
    assert_eq!(sim.now(), 3);
}

#[test]
fn run_respects_horizon() {
    let mut sim = generator_network(2);
    let cycles = sim.run(Time::Finite(7), 1000);
    // Events at 2, 4 and 6 fall inside the horizon; the event at 8 stays
    // pending.
    assert_eq!(cycles, 3);
    assert_eq!(sim.now(), 6);
    assert_eq!(sim.peek_next_time(), Time::Finite(8));
}

#[test]
fn ports_report_empty_between_cycles() {
    let mut sim = generator_network(1);
    for _ in 0..4 {
        sim.step();
        for bags in &sim.bags {
            for port in bags {
                assert!(port.is_empty());
            }
        }
    }
}

#[test]
fn relay_reproduces_injected_sequence_in_order() {
    let mut sim = relay_network::<u64>(1).unwrap();
    sim.inject(0, 10);
    sim.inject(0, 20);
    sim.inject(0, 30);
    // First cycle delivers the injected values to the relay.
    assert_eq!(sim.step(), StepOutcome::Advanced(0));
    assert_eq!(sim.emitted_values(0), Vec::<u64>::new());
    assert_eq!(sim.model(0).buffer, vec![10, 20, 30]);
    // Second cycle: the relay is imminent and reproduces the sequence.
    assert_eq!(sim.step(), StepOutcome::Advanced(0));
    assert_eq!(sim.emitted_values(0), vec![10, 20, 30]);
    assert!(sim.model(0).buffer.is_empty());
    // A later batch passes through untouched as well.
    sim.inject(0, 4);
    sim.inject(0, 5);
    sim.step();
    sim.step();
    assert_eq!(sim.emitted_values(0), vec![4, 5]);
    assert_eq!(sim.step(), StepOutcome::Finished);
}

#[test]
fn fan_out_reaches_both_destinations_in_one_cycle() {
    let mut net: Coupled<Relay<u64>> = Coupled::new("fan");
    net.add_in_port("i_value", 1).unwrap();
    net.add_atomic("Src", Relay::new(1)).unwrap();
    net.add_atomic("D1", Relay::new(1)).unwrap();
    net.add_atomic("D2", Relay::new(1)).unwrap();
    net.add_eic("i_value", "Src", "i_value").unwrap();
    net.add_ic("Src", "o_value", "D1", "i_value").unwrap();
    net.add_ic("Src", "o_value", "D2", "i_value").unwrap();
    let mut sim = RootCoordinator::new(net);
    sim.inject(0, 7);
    sim.step();
    assert_eq!(sim.model(0).buffer, vec![7]);
    sim.step();
    assert_eq!(sim.model(1).buffer, vec![7]);
    assert_eq!(sim.model(2).buffer, vec![7]);
}

#[test]
fn self_looped_pair_defers_reactions_across_cycles() {
    let mut net: Coupled<Relay<u64>> = Coupled::new("loop");
    net.add_in_port("i_value", 1).unwrap();
    net.add_atomic("A", Relay::new(1)).unwrap();
    net.add_atomic("B", Relay::new(1)).unwrap();
    net.add_eic("i_value", "A", "i_value").unwrap();
    net.add_ic("A", "o_value", "B", "i_value").unwrap();
    net.add_ic("B", "o_value", "A", "i_value").unwrap();
    let mut sim = RootCoordinator::new(net);
    sim.inject(0, 42);
    // Delivery cycle: the value reaches A.
    assert_eq!(sim.step(), StepOutcome::Advanced(0));
    assert_eq!(sim.model(0).buffer, vec![42]);
    assert!(sim.model(1).buffer.is_empty());
    // The value now ping-pongs: each reaction is deferred to the next
    // cycle, one hop per cycle, never an unbounded cascade within one.
    for round in 0..10 {
        assert_eq!(sim.step(), StepOutcome::Advanced(0));
        let (a, b) = (&sim.model(0).buffer, &sim.model(1).buffer);
        if round % 2 == 0 {
            assert!(a.is_empty());
            assert_eq!(b, &vec![42]);
        } else {
            assert_eq!(a, &vec![42]);
            assert!(b.is_empty());
        }
    }
    assert_eq!(sim.now(), 0);
}

#[test]
fn job_shop_experiment_runs_to_completion() {
    let net = efp(1, 3, 100).unwrap();
    let mut sim = RootCoordinator::new(net);
    let cycles = sim.run(Time::Never, 100_000);
    assert!(cycles < 100_000);
    assert!(sim.peek_next_time().is_never());
    let models = sim.into_models();
    let transducer = match &models[1] {
        JobShopModel::Transducer(t) => t,
        _ => panic!("arena order changed"),
    };
    // One job per tick arrives until the observation window closes at 100.
    assert_eq!(transducer.arrived_jobs().len(), 100);
    assert_eq!(transducer.arrived_jobs()[0], Job { id: 0, created: 0 });
    assert_eq!(transducer.arrived_jobs()[99], Job { id: 99, created: 99 });
    // The processor needs three ticks per job, so it solves the jobs
    // created at 0, 3, 6, ..., 99, finishing the last one after the
    // window closed.
    assert_eq!(transducer.solved_jobs().len(), 34);
    assert_eq!(transducer.solved_jobs()[0], Job { id: 0, created: 0 });
    assert_eq!(transducer.solved_jobs()[33], Job { id: 99, created: 99 });
}

#[test]
fn recorder_keeps_timestamped_history() {
    let mut net: Coupled<Recorder<u64>> = Coupled::new("rec");
    net.add_in_port("i_value", 1).unwrap();
    net.add_atomic("Recorder", Recorder::new(1)).unwrap();
    net.add_eic("i_value", "Recorder", "i_value").unwrap();
    let mut sim = RootCoordinator::new(net);
    sim.inject(0, 5);
    sim.inject(0, 6);
    assert_eq!(sim.step(), StepOutcome::Advanced(0));
    let models = sim.into_models();
    let history = models[0].history();
    assert_eq!(history.len(), 2);
    assert_eq!((history[0].time, history[0].value), (0, 5));
    assert_eq!((history[1].time, history[1].value), (0, 6));
}
