use devs_kernel::{
    configure_mesh, draw_series_labels, quaternion_fields, vec3_fields, Pacer, ParseQuaternionError,
    ParseVec3Error, Time,
};

fn bytes(s: &str) -> Vec<u8> {
    s.as_bytes().to_vec()
}

#[test]
fn vec3_text_splits_into_three_fields() {
    let (x, y, z) = vec3_fields(&bytes("(1,2.5,-3)")).unwrap();
    assert_eq!(x, bytes("1"));
    assert_eq!(y, bytes("2.5"));
    assert_eq!(z, bytes("-3"));
}

#[test]
fn vec3_text_trims_outer_whitespace_only() {
    let (x, y, z) = vec3_fields(&bytes("  (1, 2,3)\n")).unwrap();
    assert_eq!(x, bytes("1"));
    assert_eq!(y, bytes(" 2"));
    assert_eq!(z, bytes("3"));
}

#[test]
fn vec3_text_strips_repeated_parens() {
    let (x, y, z) = vec3_fields(&bytes("((1,2,3))")).unwrap();
    assert_eq!(x, bytes("1"));
    assert_eq!(y, bytes("2"));
    assert_eq!(z, bytes("3"));
}

#[test]
fn vec3_text_works_without_parens() {
    let (x, y, z) = vec3_fields(&bytes("4,5,6")).unwrap();
    assert_eq!((x, y, z), (bytes("4"), bytes("5"), bytes("6")));
}

#[test]
fn vec3_text_wrong_arity_is_rejected() {
    assert_eq!(vec3_fields(&bytes("(1,2)")), Err(ParseVec3Error));
    assert_eq!(vec3_fields(&bytes("(1,2,3,4)")), Err(ParseVec3Error));
    assert_eq!(vec3_fields(&bytes("")), Err(ParseVec3Error));
}

#[test]
fn quaternion_text_splits_into_four_fields() {
    let (w, x, y, z) = quaternion_fields(&bytes("(1,0,0,0)")).unwrap();
    assert_eq!((w, x, y, z), (bytes("1"), bytes("0"), bytes("0"), bytes("0")));
    assert_eq!(quaternion_fields(&bytes("(1,2,3)")), Err(ParseQuaternionError));
}

#[test]
fn mesh_description_carries_captions() {
    let m = configure_mesh("Time [s]", "Angular Velocity [rad/s]");
    assert_eq!(m.x_desc, "Time [s]");
    assert_eq!(m.y_desc, "Angular Velocity [rad/s]");
    assert_eq!(m.label_font, "sans-serif");
    assert_eq!(m.label_size, 20);
}

#[test]
fn series_label_description_is_fixed() {
    let s = draw_series_labels();
    assert_eq!(s.background_opacity_percent, 80);
    assert!(s.bordered);
    assert!(s.upper_right);
}

#[test]
fn pacer_waits_out_the_remaining_span() {
    // One simulated tick lasts 1000 wall-clock units.
    let pacer = Pacer::new(1000, 1);
    assert_eq!(pacer.wait_before(500, Time::Finite(2)), 1500);
    assert_eq!(pacer.wait_before(2000, Time::Finite(2)), 0);
    // Behind schedule: no catch-up, the wait is zero.
    assert_eq!(pacer.wait_before(9999, Time::Finite(3)), 0);
    // Nothing scheduled: no wait.
    assert_eq!(pacer.wait_before(0, Time::Never), 0);
}

#[test]
fn pacer_scales_down_and_saturates() {
    // Ten ticks per wall-clock unit.
    let pacer = Pacer::new(1, 10);
    assert_eq!(pacer.wait_before(0, Time::Finite(100)), 10);
    // A due point beyond the representable range saturates instead of
    // wrapping.
    let coarse = Pacer::new(u64::MAX, 1);
    assert_eq!(coarse.wait_before(0, Time::Finite(2)), u64::MAX);
}
