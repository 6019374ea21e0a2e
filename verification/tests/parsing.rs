use stubgen::stub::parser::{parse_generator_stub, tokenize, ParseError};
use stubgen::stub::{Cmd, Var, VarType};

fn parse(text: &str) -> stubgen::stub::Stub {
    parse_generator_stub(String::from(text)).expect("expected a successful parse")
}

fn parse_err(text: &str) -> ParseError {
    parse_generator_stub(String::from(text)).err().expect("expected a parse error")
}

#[test]
fn tokenizer_promotes_newlines() {
    let tokens = tokenize("read N:int\nwrite Hello\n");
    assert_eq!(tokens, vec!["read", "N:int", "\n", "write", "Hello", "\n"]);
}

#[test]
fn tokenizer_normalizes_blank_lines() {
    let tokens = tokenize("a\n  \nb");
    assert_eq!(tokens, vec!["a", "\n", "\n", "b"]);
}

#[test]
fn read_then_write() {
    let stub = parse("read N:int\nwrite Hello\n");
    assert_eq!(stub.commands.len(), 2);
    match &stub.commands[0] {
        Cmd::Read(vars) => {
            assert_eq!(vars.len(), 1);
            assert_eq!(vars[0], Var::new(String::from("N"), VarType::Int));
        },
        other => panic!("expected a read command, got {:?}", other.clone_kind()),
    }
    match &stub.commands[1] {
        Cmd::Write(message) => assert_eq!(message, "Hello"),
        other => panic!("expected a write command, got {:?}", other.clone_kind()),
    }
}

#[test]
fn loop_wraps_one_read() {
    let stub = parse("loop T\nread N:int\n");
    assert_eq!(stub.commands.len(), 1);
    match &stub.commands[0] {
        Cmd::Loop { count, command } => {
            assert_eq!(count, "T");
            match command.as_ref() {
                Cmd::Read(vars) => {
                    assert_eq!(vars.len(), 1);
                    assert_eq!(vars[0], Var::new(String::from("N"), VarType::Int));
                },
                other => panic!("expected a read body, got {:?}", other.clone_kind()),
            }
        },
        other => panic!("expected a loop command, got {:?}", other.clone_kind()),
    }
}

#[test]
fn loopline_reads_its_variable_list() {
    let stub = parse("loopline arr N:int M:string(10)\n");
    assert_eq!(stub.commands.len(), 1);
    match &stub.commands[0] {
        Cmd::LoopLine { object, variables } => {
            assert_eq!(object, "arr");
            assert_eq!(variables.len(), 2);
            assert_eq!(variables[0], Var::new(String::from("N"), VarType::Int));
            assert_eq!(variables[1], Var::new_length(String::from("M"), VarType::Str, 10));
        },
        other => panic!("expected a loopline command, got {:?}", other.clone_kind()),
    }
}

#[test]
fn unknown_type_token_is_reported() {
    match parse_err("read X:weird\n") {
        ParseError::VariableType(token) => assert_eq!(token, "X:weird"),
        other => panic!("expected a variable-type error, got {:?}", other),
    }
}

#[test]
fn all_primitive_types_parse() {
    let stub = parse("read A:int B:float C:long D:bool E:word(5) F:string(64)\n");
    match &stub.commands[0] {
        Cmd::Read(vars) => {
            assert_eq!(vars.len(), 6);
            assert_eq!(vars[0], Var::new(String::from("A"), VarType::Int));
            assert_eq!(vars[1], Var::new(String::from("B"), VarType::Float));
            assert_eq!(vars[2], Var::new(String::from("C"), VarType::Long));
            assert_eq!(vars[3], Var::new(String::from("D"), VarType::Bool));
            assert_eq!(vars[4], Var::new_length(String::from("E"), VarType::Word, 5));
            assert_eq!(vars[5], Var::new_length(String::from("F"), VarType::Str, 64));
        },
        other => panic!("expected a read command, got {:?}", other.clone_kind()),
    }
}

#[test]
fn length_pattern_is_found_anywhere_in_the_type() {
    let stub = parse("read W:sword(3)\n");
    match &stub.commands[0] {
        Cmd::Read(vars) => {
            assert_eq!(vars[0], Var::new_length(String::from("W"), VarType::Word, 3));
        },
        other => panic!("expected a read command, got {:?}", other.clone_kind()),
    }
}

#[test]
fn largest_length_fits() {
    let stub = parse("read W:word(18446744073709551615)\n");
    match &stub.commands[0] {
        Cmd::Read(vars) => {
            assert_eq!(
                vars[0],
                Var::new_length(String::from("W"), VarType::Word, 18446744073709551615),
            );
        },
        other => panic!("expected a read command, got {:?}", other.clone_kind()),
    }
}

#[test]
fn oversized_length_is_reported() {
    match parse_err("read W:word(18446744073709551616)\n") {
        ParseError::LengthTooLarge(token) => assert_eq!(token, "W:word(18446744073709551616)"),
        other => panic!("expected a length error, got {:?}", other),
    }
}

#[test]
fn unrecognized_top_level_token_is_reported() {
    match parse_err("garbage\n") {
        ParseError::Unrecognized(token) => assert_eq!(token, "garbage"),
        other => panic!("expected an unrecognized-token error, got {:?}", other),
    }
}

#[test]
fn variable_list_rejects_stray_tokens() {
    match parse_err("read N:int x\n") {
        ParseError::VariableToken(token) => assert_eq!(token, "x"),
        other => panic!("expected a variable-token error, got {:?}", other),
    }
}

#[test]
fn loop_without_count_is_reported() {
    assert_eq!(parse_err("loop\nread N:int\n"), ParseError::MissingLoopCount);
    assert_eq!(parse_err("loop"), ParseError::MissingLoopCount);
}

#[test]
fn loop_without_body_is_reported() {
    assert_eq!(parse_err("loop 5\n"), ParseError::MissingLoopBody);
}

#[test]
fn loop_with_a_bad_body_is_reported() {
    match parse_err("loop 5\nfoo\n") {
        ParseError::LoopCommand(token) => assert_eq!(token, "foo"),
        other => panic!("expected a loop-command error, got {:?}", other),
    }
}

#[test]
fn loopline_without_object_is_reported() {
    assert_eq!(parse_err("loopline\n"), ParseError::MissingLoopLineObject);
}

#[test]
fn write_preserves_inner_line_breaks() {
    let stub = parse("write Line one\nLine two\n\n");
    match &stub.commands[0] {
        Cmd::Write(message) => assert_eq!(message, "Line one \nLine two"),
        other => panic!("expected a write command, got {:?}", other.clone_kind()),
    }
}

#[test]
fn statement_and_input_and_output_sections() {
    let stub = parse("STATEMENT\nCompute the sum.\n\nINPUT\nN: the count\n\nread N:int\n");
    assert_eq!(stub.statement, "Compute the sum.");
    assert_eq!(stub.input_comments.len(), 1);
    assert_eq!(stub.input_comments[0].variable_name, "N");
    assert_eq!(stub.input_comments[0].comment_text, "the count");
    assert_eq!(stub.commands.len(), 1);
}

#[test]
fn output_section_keeps_its_leading_break() {
    let stub = parse("OUTPUT\nThe answer\n\nread N:int\n");
    assert_eq!(stub.output_comment, "\nThe answer");
}

#[test]
fn input_section_skips_undocumented_lines() {
    let stub = parse("INPUT\njust prose here\nN: the count\n\nread N:int\n");
    assert_eq!(stub.input_comments.len(), 1);
    assert_eq!(stub.input_comments[0].variable_name, "N");
}

#[test]
fn empty_input_parses_to_an_empty_stub() {
    let stub = parse("");
    assert_eq!(stub.commands.len(), 0);
    assert_eq!(stub.statement, "");
    assert_eq!(stub.output_comment, "");
    assert_eq!(stub.input_comments.len(), 0);
}

trait CmdKind {
    fn clone_kind(&self) -> &'static str;
}

impl CmdKind for Cmd {
    fn clone_kind(&self) -> &'static str {
        match self {
            Cmd::Read(_) => "read",
            Cmd::Write(_) => "write",
            Cmd::Loop { .. } => "loop",
            Cmd::LoopLine { .. } => "loopline",
        }
    }
}
