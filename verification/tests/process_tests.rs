use gosam_olp::contract::{n_results, AmplitudeType, Contract};
use gosam_olp::error::BLHAError;
use gosam_olp::gosam::{GoSamError, GoSamProcess};
use gosam_olp::model::Model;
use gosam_olp::olp::{check_olp_status, expected_n_results, flatten_momenta};
use gosam_olp::parser::parse_contract;

fn parse(text: &str) -> Result<Contract, BLHAError> {
    parse_contract(&text.as_bytes().to_vec())
}

fn fresh_process() -> GoSamProcess<f64> {
    let mut model: Model<f64> = Model::new(b"model".to_vec());
    model.add_particle(6, b"t".to_vec(), 172., b"MT".to_vec());
    model.add_particle(-6, b"t~".to_vec(), 172., b"MT".to_vec());
    model.add_particle(21, b"g".to_vec(), 0., b"MG".to_vec());
    GoSamProcess::new(
        vec![(b"QCD".to_vec(), 2)],
        model,
        None,
        None,
        None,
    )
}

#[test]
fn result_lengths_match_the_table() {
    // Leg counts 2 through 8 for every amplitude type.
    for n in 2usize..=8 {
        assert_eq!(n_results(AmplitudeType::Tree, n), 4);
        assert_eq!(n_results(AmplitudeType::Loop, n), 4);
        assert_eq!(n_results(AmplitudeType::LoopInduced, n), 4);
        assert_eq!(n_results(AmplitudeType::ccTree, n), n * (n - 1) / 2);
        assert_eq!(n_results(AmplitudeType::scTree, n), 2 * n * n);
        assert_eq!(n_results(AmplitudeType::scTree2, n), 2 * n * n);
    }
    assert_eq!(n_results(AmplitudeType::Tree, 4), 4);
    assert_eq!(n_results(AmplitudeType::ccTree, 4), 6);
    assert_eq!(n_results(AmplitudeType::scTree, 4), 32);
}

#[test]
fn expected_results_follow_the_contract() {
    let content = "1 -1 -> 6 -6 | 1 0\nAmplitudeType scTree | OK\n2 -2 -> 6 -6 21 | 1 1\n";
    let c = parse(content).unwrap();
    assert_eq!(expected_n_results(&c, 0), 4);
    assert_eq!(expected_n_results(&c, 1), 2 * 5 * 5);
}

#[test]
fn status_one_is_the_sole_success() {
    assert!(check_olp_status(b"OLP_Start".to_vec(), 1).is_ok());
    match check_olp_status(b"OLP_Start".to_vec(), -7) {
        Err(BLHAError::OLPError { call, code }) => {
            assert_eq!(call, b"OLP_Start".to_vec());
            assert_eq!(code, -7);
        }
        other => panic!("expected a provider error, got {:?}", other),
    }
}

#[test]
fn momentum_buffer_layout() {
    let momenta: Vec<[f64; 4]> = vec![[10., 1., 2., 3.], [20., 4., 5., 6.]];
    let invariants: Vec<f64> = vec![86., 323.];
    let flat = flatten_momenta(&momenta, &invariants);
    assert_eq!(
        flat,
        vec![10., 1., 2., 3., 86., 20., 4., 5., 6., 323.]
    );
}

#[test]
fn uninitialized_process_refuses_calls() {
    let mut p = fresh_process();
    match p.set_parameter_prepare(&b"MT".to_vec(), 173.) {
        Err(GoSamError::UnintializedError { call }) => {
            assert_eq!(call, b"set_parameter".to_vec());
        }
        other => panic!("expected the uninitialized error, got {:?}", other),
    }
    match p.eval_prepare(0) {
        Err(GoSamError::UnintializedError { call }) => assert_eq!(call, b"eval".to_vec()),
        other => panic!("expected the uninitialized error, got {:?}", other),
    }
    match p.print_parameters_guard() {
        Err(GoSamError::UnintializedError { call }) => {
            assert_eq!(call, b"print_parameters".to_vec());
        }
        other => panic!("expected the uninitialized error, got {:?}", other),
    }
}

#[test]
fn completed_process_accepts_calls() {
    let mut p = fresh_process();
    let c = parse("1 -1 -> 6 -6 | 1 0\n").unwrap();
    p.complete_setup(c);
    assert!(p.is_initialized());
    assert!(p.set_parameter_prepare(&b"MT".to_vec(), 173.).is_ok());
    assert_eq!(p.model.get_mass(6), 173.);
    assert_eq!(p.model.get_mass(-6), 173.);
    assert_eq!(p.eval_prepare(0).unwrap(), 4);
    assert!(p.print_parameters_guard().is_ok());
}

#[test]
fn subprocess_ids_count_up() {
    let mut p = fresh_process();
    p.add_subprocess(vec![21, 21], vec![6, -6], AmplitudeType::Loop);
    p.add_subprocess(vec![1, -1], vec![6, -6], AmplitudeType::Tree);
    assert_eq!(p.subprocesses[0].id, 0);
    assert_eq!(p.subprocesses[1].id, 1);
    assert_eq!(p.subprocesses[1].amplitude_type, AmplitudeType::Tree);
}

#[test]
fn order_options_default_to_qcd() {
    let p = fresh_process();
    let opts = p.order_options();
    assert_eq!(opts.len(), 1);
    assert_eq!(opts.get(&b"CorrectionType".to_vec()), Some(&b"QCD".to_vec()));
}

#[test]
fn order_options_take_the_nlo_coupling() {
    let mut p = fresh_process();
    p.nlo_coupling = Some(b"QED".to_vec());
    let opts = p.order_options();
    assert_eq!(opts.get(&b"CorrectionType".to_vec()), Some(&b"QED".to_vec()));
}

#[test]
fn subprocess_masses_follow_the_registry() {
    let mut p = fresh_process();
    p.add_subprocess(vec![21, 21], vec![6, -6], AmplitudeType::Loop);
    let masses = p.subprocess_masses(0).unwrap();
    assert_eq!(masses, vec![0., 0., 172., 172.]);

    p.add_subprocess(vec![11, -11], vec![6, -6], AmplitudeType::Loop);
    assert!(p.subprocess_masses(1).is_none());
}

#[test]
fn amplitude_names_round_trip() {
    let all = [
        AmplitudeType::Tree,
        AmplitudeType::scTree,
        AmplitudeType::scTree2,
        AmplitudeType::ccTree,
        AmplitudeType::Loop,
        AmplitudeType::LoopInduced,
    ];
    for a in all {
        let name = a.name_bytes();
        let lower: Vec<u8> = name.iter().map(|c| c.to_ascii_lowercase()).collect();
        assert_eq!(AmplitudeType::from_lower(&lower), Some(a));
    }
    assert_eq!(AmplitudeType::Tree.name_bytes(), b"Tree".to_vec());
    assert_eq!(AmplitudeType::from_lower(&b"loopinduced".to_vec()), Some(AmplitudeType::LoopInduced));
    assert_eq!(AmplitudeType::from_lower(&b"Tree".to_vec()), None);
}
