use devs_kernel::{efp, AssemblyError, Coupled, Relay, Route, EF};

fn two_relays() -> Coupled<Relay<u64>> {
    let mut net: Coupled<Relay<u64>> = Coupled::new("net");
    net.add_atomic("A", Relay::new(1)).unwrap();
    net.add_atomic("B", Relay::new(1)).unwrap();
    net
}

#[test]
fn duplicate_child_name_rejected() {
    let mut net: Coupled<Relay<u64>> = Coupled::new("net");
    net.add_atomic("A", Relay::new(1)).unwrap();
    assert_eq!(net.add_atomic("A", Relay::new(1)), Err(AssemblyError::DuplicateChildName));
}

#[test]
fn duplicate_port_name_rejected() {
    let mut net: Coupled<Relay<u64>> = Coupled::new("net");
    net.add_in_port("i_value", 1).unwrap();
    assert_eq!(net.add_in_port("i_value", 2), Err(AssemblyError::DuplicatePortName));
    net.add_out_port("o_value", 1).unwrap();
    assert_eq!(net.add_out_port("o_value", 1), Err(AssemblyError::DuplicatePortName));
}

#[test]
fn unknown_names_rejected() {
    let mut net = two_relays();
    assert_eq!(
        net.add_ic("A", "o_value", "C", "i_value"),
        Err(AssemblyError::NoSuchChild)
    );
    assert_eq!(
        net.add_ic("A", "o_missing", "B", "i_value"),
        Err(AssemblyError::NoSuchPort)
    );
    assert_eq!(
        net.add_ic("A", "o_value", "B", "i_missing"),
        Err(AssemblyError::NoSuchPort)
    );
    assert_eq!(
        net.add_eic("i_missing", "B", "i_value"),
        Err(AssemblyError::NoSuchPort)
    );
    assert_eq!(
        net.add_eoc("C", "o_value", "o_missing"),
        Err(AssemblyError::NoSuchChild)
    );
}

#[test]
fn type_mismatch_rejected() {
    let mut net: Coupled<Relay<u64>> = Coupled::new("net");
    net.add_atomic("A", Relay::new(1)).unwrap();
    net.add_atomic("B", Relay::new(2)).unwrap();
    assert_eq!(
        net.add_ic("A", "o_value", "B", "i_value"),
        Err(AssemblyError::TypeMismatch)
    );
    net.add_in_port("i_net", 3).unwrap();
    assert_eq!(
        net.add_eic("i_net", "A", "i_value"),
        Err(AssemblyError::TypeMismatch)
    );
    net.add_out_port("o_net", 3).unwrap();
    assert_eq!(
        net.add_eoc("B", "o_value", "o_net"),
        Err(AssemblyError::TypeMismatch)
    );
}

#[test]
fn duplicate_coupling_rejected() {
    let mut net = two_relays();
    net.add_ic("A", "o_value", "B", "i_value").unwrap();
    assert_eq!(
        net.add_ic("A", "o_value", "B", "i_value"),
        Err(AssemblyError::DuplicateCoupling)
    );
    net.add_in_port("i_net", 1).unwrap();
    net.add_eic("i_net", "A", "i_value").unwrap();
    assert_eq!(
        net.add_eic("i_net", "A", "i_value"),
        Err(AssemblyError::DuplicateCoupling)
    );
}

#[test]
fn self_loop_between_siblings_is_allowed() {
    let mut net = two_relays();
    net.add_ic("A", "o_value", "B", "i_value").unwrap();
    net.add_ic("B", "o_value", "A", "i_value").unwrap();
    assert_eq!(net.routes.len(), 2);
}

#[test]
fn ef_and_efp_assemble() {
    let ef = EF::new("EF", 1, 100).unwrap();
    assert_eq!(ef.coupled.models.len(), 2);
    let net = efp(1, 3, 100).unwrap();
    assert_eq!(net.models.len(), 3);
}

#[test]
fn efp_flattens_to_direct_routes() {
    // Arena order: the frame's generator and transducer first, then the
    // processor.  Every coupling chain, including the ones that cross the
    // frame's boundary, resolves to a direct atomic-to-atomic route.
    let net = efp(1, 3, 100).unwrap();
    let expected = vec![
        // generator -> transducer (arrived), inside the frame
        Route { src_model: 0, src_port: 0, dst_model: 1, dst_port: 0 },
        // transducer stop -> generator, inside the frame
        Route { src_model: 1, src_port: 0, dst_model: 0, dst_port: 0 },
        // frame output (fed by the generator) -> processor
        Route { src_model: 0, src_port: 0, dst_model: 2, dst_port: 0 },
        // processor -> frame input (reaching the transducer's solved port)
        Route { src_model: 2, src_port: 0, dst_model: 1, dst_port: 1 },
    ];
    assert_eq!(net.routes, expected);
}
