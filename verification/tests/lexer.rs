use std::collections::VecDeque;
use std::io::BufRead;

use line_lexer::{lex, lex_line, step, Step};

/// What can go wrong in these tests: a line that cannot be read, or a
/// statement that the handler turns down.
#[derive(Debug, Clone, PartialEq)]
enum Failure {
    Read(String),
    UnexpectedStatement(&'static str),
    WrongNumberOfArguments(&'static str),
}

type Source = VecDeque<Result<String, Failure>>;

/// The lines of a text held in memory, read the way a buffered reader hands
/// them out.
fn source_of(text: &str) -> Source {
    text.as_bytes()
        .lines()
        .map(|line| line.map_err(|e| Failure::Read(e.to_string())))
        .collect()
}

/// One call of the handler, as the handler saw it.
fn call(statement: &str, args: &[&str]) -> (String, Vec<String>) {
    (statement.to_string(), args.iter().map(|a| a.to_string()).collect())
}

/// Lexes `text` with a handler that records every call and never fails.
fn calls_of(text: &str) -> Vec<(String, Vec<String>)> {
    let mut calls = Vec::new();
    let mut source = source_of(text);
    let result = lex(&mut source, |statement: &str, args: &[&str]| -> Result<(), Failure> {
        calls.push(call(statement, args));
        Ok(())
    });
    assert_eq!(result, Ok(()));
    assert!(source.is_empty());
    calls
}

#[test]
fn test_lex() {
    let input = r#"
   statement0      arg0  arg1	arg2#argX   argX
statement1 arg0    arg1
# Comment
statement2 Hello, world!
"#;

    let mut source = source_of(input);
    lex(&mut source, |stmt: &str, args: &[&str]| {
        match stmt {
            "statement0" => assert_eq!(args, ["arg0", "arg1", "arg2"]),
            "statement1" => assert_eq!(args, ["arg0", "arg1"]),
            "statement2" => assert_eq!(args, ["Hello,", "world!"]),
            _ => return Err(Failure::UnexpectedStatement("Text failed")),
        }
        Ok(())
    }).unwrap();
}

#[test]
fn test_lex_delivers_every_statement_once_and_in_order() {
    let input = "\n   statement0      arg0  arg1\targ2#argX   argX\nstatement1 arg0    arg1\n# Comment\nstatement2 Hello, world!\n";
    assert_eq!(
        calls_of(input),
        vec![
            call("statement0", &["arg0", "arg1", "arg2"]),
            call("statement1", &["arg0", "arg1"]),
            call("statement2", &["Hello,", "world!"]),
        ]
    );
}

#[test]
fn comment_after_a_token_is_cut_off() {
    assert_eq!(
        calls_of("statement0      arg0  arg1\targ2#argX   argX"),
        vec![call("statement0", &["arg0", "arg1", "arg2"])]
    );
}

#[test]
fn comment_line_is_skipped() {
    assert_eq!(calls_of("# Comment"), vec![]);
}

#[test]
fn punctuation_stays_in_tokens() {
    assert_eq!(
        calls_of("statement2 Hello, world!"),
        vec![call("statement2", &["Hello,", "world!"])]
    );
}

#[test]
fn handler_failure_on_the_second_line_stops_the_run() {
    let mut source = source_of("first 1\nsecond 2\nthird 3\n");
    let mut calls = Vec::new();
    let result = lex(&mut source, |statement: &str, args: &[&str]| {
        calls.push(call(statement, args));
        if statement == "second" {
            Err(Failure::UnexpectedStatement("second"))
        } else {
            Ok(())
        }
    });
    assert_eq!(result, Err(Failure::UnexpectedStatement("second")));
    assert_eq!(calls, vec![call("first", &["1"]), call("second", &["2"])]);
    // The third line was never taken from the source.
    assert_eq!(source, VecDeque::from(vec![Ok("third 3".to_string())]));
}

#[test]
fn handler_failure_on_the_first_line_leaves_the_rest_unread() {
    let mut source = source_of("a\nb\nc");
    let mut count = 0;
    let result = lex(&mut source, |_: &str, args: &[&str]| {
        count += 1;
        assert!(args.is_empty());
        Err(Failure::WrongNumberOfArguments("a"))
    });
    assert_eq!(result, Err(Failure::WrongNumberOfArguments("a")));
    assert_eq!(count, 1);
    assert_eq!(source.len(), 2);
}

#[test]
fn read_failure_stops_the_run_and_is_returned_as_it_is() {
    let mut source: Source = VecDeque::new();
    source.push_back(Ok("v 1 2 3".to_string()));
    source.push_back(Ok("   ".to_string()));
    source.push_back(Err(Failure::Read("disk on fire".to_string())));
    source.push_back(Ok("v 4 5 6".to_string()));
    source.push_back(Err(Failure::Read("second fault".to_string())));
    let mut calls = Vec::new();
    let result = lex(&mut source, |statement: &str, args: &[&str]| {
        calls.push(call(statement, args));
        Ok(())
    });
    assert_eq!(result, Err(Failure::Read("disk on fire".to_string())));
    assert_eq!(calls, vec![call("v", &["1", "2", "3"])]);
    assert_eq!(source.len(), 2);
    assert_eq!(source[0], Ok("v 4 5 6".to_string()));
}

#[test]
fn read_failure_on_invalid_utf8_reaches_the_caller() {
    let bytes: &[u8] = b"ok 1\nbad \xff\xfe\nnever 2\n";
    let mut source: Source =
        bytes.lines().map(|line| line.map_err(|e| Failure::Read(e.kind().to_string()))).collect();
    assert_eq!(source.len(), 3);
    let mut calls = Vec::new();
    let result = lex(&mut source, |statement: &str, args: &[&str]| {
        calls.push(call(statement, args));
        Ok(())
    });
    assert!(matches!(result, Err(Failure::Read(_))));
    assert_eq!(calls, vec![call("ok", &["1"])]);
    assert_eq!(source.len(), 1);
}

#[test]
fn the_first_failure_in_line_order_wins() {
    // The handler fails on line 2; the read failure on line 3 is never seen.
    let mut source: Source = VecDeque::new();
    source.push_back(Ok("good".to_string()));
    source.push_back(Ok("bad".to_string()));
    source.push_back(Err(Failure::Read("late".to_string())));
    let result = lex(&mut source, |statement: &str, _: &[&str]| {
        if statement == "bad" {
            Err(Failure::UnexpectedStatement("bad"))
        } else {
            Ok(())
        }
    });
    assert_eq!(result, Err(Failure::UnexpectedStatement("bad")));
    assert_eq!(source.len(), 1);
}

#[test]
fn empty_source_succeeds_without_a_call() {
    let mut source: Source = VecDeque::new();
    let result = lex(&mut source, |_: &str, _: &[&str]| -> Result<(), Failure> {
        panic!("no line, no call")
    });
    assert_eq!(result, Ok(()));
}

#[test]
fn blank_and_comment_lines_never_reach_the_handler() {
    let text = "\n   \n\t\t\n# only a comment\n   # indented comment\n#\n \u{a0}\u{3000} \n\r\n";
    let mut source = source_of(text);
    assert_eq!(source.len(), 8);
    let result = lex(&mut source, |_: &str, _: &[&str]| -> Result<(), Failure> {
        panic!("a blank line reached the handler")
    });
    assert_eq!(result, Ok(()));
    assert!(source.is_empty());
}

#[test]
fn each_call_holds_the_tokens_of_one_line_only() {
    assert_eq!(
        calls_of("a 1\n\nb\nc 2 3\n"),
        vec![call("a", &["1"]), call("b", &[]), call("c", &["2", "3"])]
    );
}

#[test]
fn comment_needs_no_whitespace_around_it() {
    assert_eq!(calls_of("v 1 2#3 4"), vec![call("v", &["1", "2"])]);
    assert_eq!(calls_of("v 1 2 #3 4"), vec![call("v", &["1", "2"])]);
    assert_eq!(calls_of("v 1 2# 3 4"), vec![call("v", &["1", "2"])]);
    assert_eq!(calls_of("v#"), vec![call("v", &[])]);
    assert_eq!(calls_of("v # a # b"), vec![call("v", &[])]);
}

#[test]
fn lexing_twice_gives_the_same_calls() {
    let text = "o cube\nv 0 0 0 # origin\n\nv 1 0 0\nf 1 2 3\n# end\n";
    let first = calls_of(text);
    let second = calls_of(text);
    assert_eq!(first.len(), 4);
    assert_eq!(first, second);
}

#[test]
fn lexing_twice_with_a_failing_handler_stops_at_the_same_line() {
    let text = "a\nb\nstop here\nc\n";
    let mut runs = Vec::new();
    for _ in 0..2 {
        let mut source = source_of(text);
        let mut calls = Vec::new();
        let result = lex(&mut source, |statement: &str, args: &[&str]| {
            calls.push(call(statement, args));
            if statement == "stop" {
                Err(Failure::UnexpectedStatement("stop"))
            } else {
                Ok(())
            }
        });
        runs.push((result, calls, source.len()));
    }
    assert_eq!(runs[0], runs[1]);
    assert_eq!(runs[0].0, Err(Failure::UnexpectedStatement("stop")));
    assert_eq!(runs[0].1.len(), 3);
    assert_eq!(runs[0].2, 1);
}

#[test]
fn what_follows_a_failure_does_not_matter() {
    let mut outcomes = Vec::new();
    for tail in ["", "x\n", "# c\ny 1\n", "stop again\n"] {
        let text = format!("a 1\nstop 2\n{}", tail);
        let mut source = source_of(&text);
        let before = source.len();
        let mut calls = Vec::new();
        let result = lex(&mut source, |statement: &str, args: &[&str]| {
            calls.push(call(statement, args));
            if statement == "stop" {
                Err(Failure::UnexpectedStatement("stop"))
            } else {
                Ok(())
            }
        });
        outcomes.push((result, calls, before - source.len()));
    }
    for outcome in &outcomes {
        assert_eq!(outcome, &outcomes[0]);
    }
    assert_eq!(outcomes[0].2, 2);
}

#[test]
fn lex_line_hands_over_statement_and_arguments() {
    let mut calls = Vec::new();
    let mut handler = |statement: &str, args: &[&str]| -> Result<(), Failure> {
        calls.push(call(statement, args));
        Ok(())
    };
    assert_eq!(lex_line("  vt 0.5\t1.0  # uv", &mut handler), Ok(()));
    assert_eq!(lex_line("usemtl", &mut handler), Ok(()));
    assert_eq!(calls, vec![call("vt", &["0.5", "1.0"]), call("usemtl", &[])]);
}

#[test]
fn lex_line_skips_a_line_without_tokens() {
    let mut handler = |_: &str, _: &[&str]| -> Result<(), Failure> {
        panic!("nothing to hand over")
    };
    assert_eq!(lex_line("", &mut handler), Ok(()));
    assert_eq!(lex_line("    ", &mut handler), Ok(()));
    assert_eq!(lex_line("# Comment", &mut handler), Ok(()));
    assert_eq!(lex_line(" \t#v 1 2 3", &mut handler), Ok(()));
}

#[test]
fn lex_line_returns_the_handlers_error_unchanged() {
    let mut handler = |statement: &str, args: &[&str]| -> Result<(), Failure> {
        assert_eq!(statement, "f");
        assert_eq!(args.len(), 2);
        Err(Failure::WrongNumberOfArguments("f needs three"))
    };
    assert_eq!(
        lex_line("f 1 2", &mut handler),
        Err(Failure::WrongNumberOfArguments("f needs three"))
    );
}

#[test]
fn lex_line_lets_the_handler_keep_state_between_lines() {
    let mut total = 0usize;
    let mut handler = |_: &str, args: &[&str]| -> Result<(), Failure> {
        total += args.len();
        Ok(())
    };
    for line in ["a 1 2", "", "b 3", "# c 4 5 6"] {
        assert_eq!(lex_line(line, &mut handler), Ok(()));
    }
    assert_eq!(total, 3);
}

#[test]
fn step_stops_with_ok_at_the_end_of_the_source() {
    let mut handler = |_: &str, _: &[&str]| -> Result<(), Failure> { panic!("no line, no call") };
    assert_eq!(step(None, &mut handler), Step::Stop(Ok(())));
}

#[test]
fn step_stops_with_the_reason_when_a_line_could_not_be_read() {
    let mut handler = |_: &str, _: &[&str]| -> Result<(), Failure> { panic!("no line, no call") };
    let item = Some(Err(Failure::Read("broken pipe".to_string())));
    assert_eq!(step(item, &mut handler), Step::Stop(Err(Failure::Read("broken pipe".to_string()))));
}

#[test]
fn step_goes_on_after_a_line_without_tokens() {
    let mut handler = |_: &str, _: &[&str]| -> Result<(), Failure> { panic!("nothing to hand over") };
    for line in ["", "  \t", "# Comment", "   #x"] {
        assert_eq!(step(Some(Ok(line.to_string())), &mut handler), Step::Continue);
    }
}

#[test]
fn step_goes_on_when_the_handler_answers_ok() {
    let mut calls = Vec::new();
    let mut handler = |statement: &str, args: &[&str]| -> Result<(), Failure> {
        calls.push(call(statement, args));
        Ok(())
    };
    assert_eq!(step(Some(Ok("g group one".to_string())), &mut handler), Step::Continue);
    assert_eq!(calls, vec![call("g", &["group", "one"])]);
}

#[test]
fn step_stops_with_the_handlers_error() {
    let mut handler = |statement: &str, _: &[&str]| -> Result<(), Failure> {
        assert_eq!(statement, "x");
        Err(Failure::UnexpectedStatement("x"))
    };
    assert_eq!(
        step(Some(Ok(" x y # z".to_string())), &mut handler),
        Step::Stop(Err(Failure::UnexpectedStatement("x")))
    );
}

#[test]
fn driving_step_by_hand_does_what_lex_does() {
    let text = "a 1\n# note\nb 2\nstop\nc 3\n";
    let mut by_lex = Vec::new();
    let mut source = source_of(text);
    let expected = lex(&mut source, |statement: &str, args: &[&str]| {
        by_lex.push(call(statement, args));
        if statement == "stop" { Err(Failure::UnexpectedStatement("stop")) } else { Ok(()) }
    });

    let mut by_hand = Vec::new();
    let mut handler = |statement: &str, args: &[&str]| {
        by_hand.push(call(statement, args));
        if statement == "stop" { Err(Failure::UnexpectedStatement("stop")) } else { Ok(()) }
    };
    let mut lines = source_of(text).into_iter();
    let mut taken = 0;
    let result = loop {
        let item = lines.next();
        if item.is_some() {
            taken += 1;
        }
        if let Step::Stop(result) = step(item, &mut handler) {
            break result;
        }
    };
    assert_eq!(result, expected);
    assert_eq!(result, Err(Failure::UnexpectedStatement("stop")));
    assert_eq!(by_hand, by_lex);
    assert_eq!(taken, 4);
    assert_eq!(source.len(), 1);
}
