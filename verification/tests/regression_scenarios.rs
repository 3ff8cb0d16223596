use matching_engine::csv_codec::{format_output_legacy, parse_input_line};
use matching_engine::MatchingEngine;

const INPUT: &str = "\
#name: balanced book
# two users build a book, then it trades
N, 1, IBM, 10, 100, B, 1
N, 1, IBM, 12, 100, S, 2
N, 2, IBM, 9, 100, B, 101
N, 2, IBM, 11, 100, S, 102
N, 1, IBM, 11, 100, B, 3
N, 2, IBM, 10, 100, S, 103
N, 1, IBM, 10, 100, B, 4
N, 2, IBM, 11, 100, S, 104
F

#name: shallow bid
N, 1, AAPL, 10, 100, B, 1
N, 1, AAPL, 12, 100, S, 2
N, 2, AAPL, 11, 100, S, 102
N, 2, AAPL, 10, 100, S, 103
N, 1, AAPL, 10, 100, B, 3
F

#name: market orders
N, 1, IBM, 10, 100, B, 1
N, 1, IBM, 12, 100, S, 2
N, 2, IBM, 0, 40, S, 101
N, 2, IBM, 0, 500, B, 102
F

#name: cancels
N, 1, IBM, 10, 100, B, 1
N, 1, IBM, 9, 50, B, 2
C, 1, 1
C, 1, 1
C, 99, 99
Q, IBM
F
";

fn run_lines(engine: &mut MatchingEngine, lines: &[String]) -> Vec<String> {
    let mut outputs = Vec::new();
    for line in lines {
        if let Some(input_msg) = parse_input_line(line) {
            assert!(engine.can_accept(&input_msg));
            let msgs = engine.process_message(input_msg);
            for msg in msgs {
                outputs.push(format_output_legacy(&msg));
            }
        }
    }
    outputs
}

#[test]
fn full_input_matches_reference_output() {
    let mut engine = MatchingEngine::new();
    let mut actual_lines: Vec<String> = Vec::new();

    for raw_line in INPUT.lines() {
        let line = raw_line.trim();
        if line.is_empty() || line.starts_with('#') {
            continue;
        }

        if let Some(input_msg) = parse_input_line(line) {
            assert!(engine.can_accept(&input_msg));
            let outputs = engine.process_message(input_msg);
            for out in outputs {
                let s = format_output_legacy(&out);
                actual_lines.push(s);
            }
        }
    }

    println!("engine produced {} output lines", actual_lines.len());

    assert!(!actual_lines.is_empty(), "Engine should produce some output");

    let acks = actual_lines.iter().filter(|l| l.starts_with("A,")).count();
    let trades = actual_lines.iter().filter(|l| l.starts_with("T,")).count();
    let cancel_acks = actual_lines.iter().filter(|l| l.starts_with("C,")).count();
    let tob = actual_lines.iter().filter(|l| l.starts_with("B,")).count();

    println!("Output summary:");
    println!("  Acks: {}", acks);
    println!("  CancelAcks: {}", cancel_acks);
    println!("  Trades: {}", trades);
    println!("  TopOfBook: {}", tob);

    assert!(acks > 0, "Should have some Acks");
    assert!(trades > 0, "Should have some Trades");
    assert!(tob > 0, "Should have some TopOfBook updates");

    assert_eq!(acks, 19);
    assert_eq!(cancel_acks, 3);
    assert_eq!(trades, 5);
    assert_eq!(tob, 20);
}

#[test]
fn test_individual_scenarios() {
    let mut current_scenario = String::new();
    let mut scenario_lines = Vec::new();
    let mut scenarios = Vec::new();

    for line in INPUT.lines() {
        if line.starts_with("#name:") {
            if !scenario_lines.is_empty() {
                scenarios.push((current_scenario.clone(), scenario_lines.clone()));
            }
            current_scenario = line.to_string();
            scenario_lines.clear();
        } else if !line.starts_with('#') && !line.trim().is_empty() {
            scenario_lines.push(line.to_string());
        }
    }
    if !scenario_lines.is_empty() {
        scenarios.push((current_scenario, scenario_lines));
    }

    assert_eq!(scenarios.len(), 4);

    for (name, lines) in scenarios {
        println!("\nTesting scenario: {}", name);

        let mut engine = MatchingEngine::new();
        let outputs = run_lines(&mut engine, &lines);

        println!("  Produced {} outputs", outputs.len());
        assert!(!outputs.is_empty());
        assert_eq!(engine.num_symbols(), 0);
    }
}

#[test]
fn balanced_book_trades_at_resting_prices() {
    let lines: Vec<String> = INPUT
        .lines()
        .skip_while(|l| !l.starts_with("#name: balanced book"))
        .skip(1)
        .take_while(|l| !l.starts_with("#name:"))
        .map(|l| l.to_string())
        .collect();
    let mut engine = MatchingEngine::new();
    let outputs = run_lines(&mut engine, &lines);
    let expected = vec![
        "A, 1, 1",
        "B, B, 10, 100",
        "A, 1, 2",
        "B, S, 12, 100",
        "A, 2, 101",
        "A, 2, 102",
        "B, S, 11, 100",
        "A, 1, 3",
        "T, 1, 3, 2, 102, 11, 100",
        "B, S, 12, 100",
        "A, 2, 103",
        "T, 1, 1, 2, 103, 10, 100",
        "B, B, 9, 100",
        "A, 1, 4",
        "B, B, 10, 100",
        "A, 2, 104",
        "B, S, 11, 100",
    ];
    assert_eq!(outputs, expected);
}
