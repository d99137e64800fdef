use gosam_olp::contract::{AmplitudeType, Contract, Subprocess};
use gosam_olp::error::BLHAError;
use gosam_olp::parser::parse_contract;
use indexmap::IndexMap;

fn parse(text: &str) -> Result<Contract, BLHAError> {
    parse_contract(&text.as_bytes().to_vec())
}

#[test]
fn contract_parser_test() {
    let content = r#"# OLE_order.lh
# Created by Sherpa-2.0.0
InterfaceVersion BLHA2 | OK
Model SMdiag | OK
MatrixElementSquareType CHsummed | OK
CorrectionType QCD | OK
IRregularisation DRED | OK
WidthScheme ComplexMass | OK
EWScheme alphaGF | OK
AccuracyTarget 0.0001 | OK
DebugUnstable True | OK
Extra Line1 | OK
Extra Line2 | OK
# process list
CouplingPower QCD 2 | OK
CouplingPower QED 0 | OK
1 -1 -> 6 -6 | 1 4
-1 1 -> 6 -6 | 1 2
21 21 -> 6 -6 | 1 5
CouplingPower QCD 3 | OK
CouplingPower QED 0 | OK
1 -1 -> 6 -6 21 | 1 1
1 21 -> 6 -6 1 | 1 3
-1 1 -> 6 -6 21 | 1 8
-1 21 -> 6 -6 -1 | 1 9
21 1 -> 6 -6 1 | 1 10
21 -1 -> 6 -6 -1 | 1 6
21 21 -> 6 -6 21 | 1 7"#;
    let contract = parse(content).unwrap();
    let contract_ref = Contract {
        options: IndexMap::from([
            (b"InterfaceVersion".to_vec(), b"BLHA2".to_vec()),
            (b"Model".to_vec(), b"SMdiag".to_vec()),
            (b"MatrixElementSquareType".to_vec(), b"CHsummed".to_vec()),
            (b"CorrectionType".to_vec(), b"QCD".to_vec()),
            (b"IRregularisation".to_vec(), b"DRED".to_vec()),
            (b"WidthScheme".to_vec(), b"ComplexMass".to_vec()),
            (b"EWScheme".to_vec(), b"alphaGF".to_vec()),
            (b"AccuracyTarget".to_vec(), b"0.0001".to_vec()),
            (b"DebugUnstable".to_vec(), b"True".to_vec()),
            (b"Extra".to_vec(), b"Line2".to_vec()),
            (b"CouplingPower".to_vec(), b"[String(\"QED\"), Int(0)]".to_vec()),
        ]),
        subprocesses: vec![
            Subprocess {
                id: 1,
                amplitude_type: AmplitudeType::Loop,
                incoming_pdg: vec![1, -1],
                outgoing_pdg: vec![6, -6, 21],
            },
            Subprocess {
                id: 2,
                amplitude_type: AmplitudeType::Loop,
                incoming_pdg: vec![-1, 1],
                outgoing_pdg: vec![6, -6],
            },
            Subprocess {
                id: 3,
                amplitude_type: AmplitudeType::Loop,
                incoming_pdg: vec![1, 21],
                outgoing_pdg: vec![6, -6, 1],
            },
            Subprocess {
                id: 4,
                amplitude_type: AmplitudeType::Loop,
                incoming_pdg: vec![1, -1],
                outgoing_pdg: vec![6, -6],
            },
            Subprocess {
                id: 5,
                amplitude_type: AmplitudeType::Loop,
                incoming_pdg: vec![21, 21],
                outgoing_pdg: vec![6, -6],
            },
            Subprocess {
                id: 6,
                amplitude_type: AmplitudeType::Loop,
                incoming_pdg: vec![21, -1],
                outgoing_pdg: vec![6, -6, -1],
            },
            Subprocess {
                id: 7,
                amplitude_type: AmplitudeType::Loop,
                incoming_pdg: vec![21, 21],
                outgoing_pdg: vec![6, -6, 21],
            },
            Subprocess {
                id: 8,
                amplitude_type: AmplitudeType::Loop,
                incoming_pdg: vec![-1, 1],
                outgoing_pdg: vec![6, -6, 21],
            },
            Subprocess {
                id: 9,
                amplitude_type: AmplitudeType::Loop,
                incoming_pdg: vec![-1, 21],
                outgoing_pdg: vec![6, -6, -1],
            },
            Subprocess {
                id: 10,
                amplitude_type: AmplitudeType::Loop,
                incoming_pdg: vec![21, 1],
                outgoing_pdg: vec![6, -6, 1],
            },
        ],
    };
    assert_eq!(contract, contract_ref);
}

#[test]
fn parse_twice_yields_equal_contracts() {
    let content = "Model SMdiag | OK\n1 -1 -> 21 | 1 0\n";
    let first = parse(content).unwrap();
    let second = parse(content).unwrap();
    assert_eq!(first, second);
}

#[test]
fn default_amplitude_is_loop() {
    let content = "Model SMdiag | OK\n1 -1 -> 21 | 1 1\n2 -2 -> 21 | 1 0\n";
    let c = parse(content).unwrap();
    assert_eq!(c.subprocesses.len(), 2);
    for sub in &c.subprocesses {
        assert_eq!(sub.amplitude_type, AmplitudeType::Loop);
    }
}

#[test]
fn amplitude_type_applies_to_later_subprocesses() {
    let content = "1 -1 -> 21 | 1 0\nAmplitudeType ccTree | OK\n2 -2 -> 21 | 1 1\n";
    let c = parse(content).unwrap();
    assert_eq!(c.subprocesses[0].amplitude_type, AmplitudeType::Loop);
    assert_eq!(c.subprocesses[1].amplitude_type, AmplitudeType::ccTree);
    assert_eq!(
        c.options.get(&b"AmplitudeType".to_vec()),
        Some(&b"ccTree".to_vec())
    );
}

#[test]
fn unknown_amplitude_type_is_a_contract_error() {
    let content = "AmplitudeType NotAThing | OK\n";
    match parse(content) {
        Err(BLHAError::ContractError { text }) => {
            assert_eq!(text, b"Unknown amplitude type: NotAThing".to_vec());
        }
        other => panic!("expected a contract error, got {:?}", other),
    }
}

#[test]
fn bad_answer_text_is_a_contract_error() {
    let content = "Model SMdiag | Sorry, no\n";
    match parse(content) {
        Err(BLHAError::ContractError { text }) => {
            assert_eq!(text, b"Sorry, no".to_vec());
        }
        other => panic!("expected a contract error, got {:?}", other),
    }
}

#[test]
fn answer_case_is_insensitive() {
    assert!(parse("Model SMdiag | ok\n").is_ok());
    assert!(parse("Model SMdiag | Ok\n").is_ok());
    assert!(parse("Model SMdiag | oK\n").is_ok());
}

#[test]
fn first_rejected_statement_wins() {
    let content = "Model SMdiag | BAD1\nAmplitudeType Nope | OK\n";
    match parse(content) {
        Err(BLHAError::ContractError { text }) => assert_eq!(text, b"BAD1".to_vec()),
        other => panic!("expected a contract error, got {:?}", other),
    }
}

#[test]
fn subprocesses_are_sorted_by_id() {
    let content = "1 -1 -> 21 | 1 7\n2 -2 -> 21 | 1 3\n3 -3 -> 21 | 1 5\n";
    let c = parse(content).unwrap();
    let ids: Vec<i64> = c.subprocesses.iter().map(|s| s.id).collect();
    assert_eq!(ids, vec![3, 5, 7]);
    assert_eq!(c.subprocesses[0].incoming_pdg, vec![2, -2]);
}

#[test]
fn syntax_error_reports_the_line() {
    let content = "Model SMdiag | OK\n\nthis line has no bar\n";
    match parse(content) {
        Err(BLHAError::ParseError { line, col: _ }) => assert_eq!(line, 3),
        other => panic!("expected a parse error, got {:?}", other),
    }
}

#[test]
fn option_without_value_is_a_syntax_error() {
    match parse("Lonely | OK\n") {
        Err(BLHAError::ParseError { line, col: _ }) => assert_eq!(line, 1),
        other => panic!("expected a parse error, got {:?}", other),
    }
}

#[test]
fn value_classification_and_display() {
    let content = "A +00042 | OK\nB 1.5 | OK\nC abc | OK\nD 9223372036854775808 | OK\nE x 1 2.5 | OK\n";
    let c = parse(content).unwrap();
    assert_eq!(c.options.get(&b"A".to_vec()), Some(&b"42".to_vec()));
    assert_eq!(c.options.get(&b"B".to_vec()), Some(&b"1.5".to_vec()));
    assert_eq!(c.options.get(&b"C".to_vec()), Some(&b"abc".to_vec()));
    // An integer that does not fit an i64 falls back to an opaque string.
    assert_eq!(
        c.options.get(&b"D".to_vec()),
        Some(&b"9223372036854775808".to_vec())
    );
    assert_eq!(
        c.options.get(&b"E".to_vec()),
        Some(&b"[String(\"x\"), Int(1), Float(2.5)]".to_vec())
    );
}

#[test]
fn comments_are_stripped_to_end_of_line() {
    let content = "# leading comment\nModel SMdiag | OK # trailing comment\n";
    assert!(parse(content).is_ok());
}
