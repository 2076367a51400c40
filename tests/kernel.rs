use weavers::{ConfigError, DepthCODEm, DepthWeight, Exponential, Tricubic};

#[test]
fn depth_codem_forms_for_three_levels() {
    let kernel = DepthCODEm::new(0.5_f32, 3).unwrap();
    let forms: Vec<DepthWeight> = (0..4).map(|d| kernel.weight_form(d)).collect();
    assert_eq!(
        forms,
        vec![
            DepthWeight::Share(0),
            DepthWeight::Share(1),
            DepthWeight::Remainder(2),
            DepthWeight::Zero,
        ]
    );
}

#[test]
fn depth_codem_single_level_keeps_all_mass() {
    let kernel = DepthCODEm::new(0.3_f32, 1).unwrap();
    assert_eq!(kernel.weight_form(0), DepthWeight::Remainder(0));
    assert_eq!(kernel.weight_form(1), DepthWeight::Zero);
    assert_eq!(kernel.weight_form(7), DepthWeight::Zero);
}

#[test]
fn depth_codem_rejects_no_levels() {
    match DepthCODEm::new(0.5_f32, 0) {
        Err(e) => assert_eq!(e, ConfigError::MaxLevelOutOfRange { maxlvl: 0 }),
        Ok(_) => panic!("a hierarchy needs a level"),
    }
    assert!(DepthCODEm::new(0.5_f32, -2).is_err());
}

#[test]
fn kernels_keep_their_parameters() {
    assert_eq!(Exponential::new(2.0_f32).radius, 2.0);
    let t = Tricubic::new(4.0_f32, 0.5);
    assert_eq!((t.radius, t.exponent), (4.0, 0.5));
    let d = DepthCODEm::new(0.25_f32, 4).unwrap();
    assert_eq!((d.radius, d.maxlvl), (0.25, 4));
}

#[test]
fn depth_codem_deepest_distance_has_no_weight() {
    let kernel = DepthCODEm::new(0.5_f32, i32::MAX).unwrap();
    assert_eq!(kernel.weight_form(i32::MAX), DepthWeight::Zero);
    assert_eq!(kernel.weight_form(i32::MAX - 1), DepthWeight::Remainder((i32::MAX - 1) as u32));
    assert_eq!(kernel.weight_form(0), DepthWeight::Share(0));
}
