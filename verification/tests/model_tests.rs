use gosam_olp::model::Model;

#[test]
fn model_test() {
    let mut m: Model<f64> = Model::new(b"/tmp".to_vec());
    m.add_particle(6, b"t".to_vec(), 172., b"MT".to_vec());
    m.add_particle(-6, b"t~".to_vec(), 172., b"MT".to_vec());
    m.add_particle(1, b"d".to_vec(), 0., b"MD".to_vec());

    m.update_mass(&b"MT".to_vec(), 173.);

    assert_eq!(m.get_mass(-6), 173.);
}

#[test]
fn update_mass_leaves_other_parameters_alone() {
    let mut m: Model<f64> = Model::new(b"/tmp".to_vec());
    m.add_particle(6, b"t".to_vec(), 172., b"MT".to_vec());
    m.add_particle(1, b"d".to_vec(), 0.1, b"MD".to_vec());
    m.update_mass(&b"MT".to_vec(), 170.);
    assert_eq!(m.get_mass(6), 170.);
    assert_eq!(m.get_mass(1), 0.1);
}

#[test]
fn add_particle_replaces_an_existing_code() {
    let mut m: Model<f64> = Model::new(b"/tmp".to_vec());
    m.add_particle(25, b"h".to_vec(), 125., b"MH".to_vec());
    m.add_particle(25, b"h".to_vec(), 126., b"MH".to_vec());
    assert_eq!(m.particles.len(), 1);
    assert_eq!(m.get_mass(25), 126.);
}

#[test]
fn unknown_code_has_no_mass() {
    let m: Model<f64> = Model::new(b"/tmp".to_vec());
    assert!(m.get_mass_checked(11).is_none());
}
