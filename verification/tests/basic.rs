use pancakestack::parse_program_str;
use pancakestack::run_program;
use pancakestack::run_program_str;
use pancakestack::Command;
use pancakestack::Error;

const BUDGET: u64 = u64::MAX;

#[test]
fn simplest() {
    let program = "Put this test pancake on top!\nShow me a pancake!";

    let mut output_buf: Vec<u8> = Vec::new();
    run_program_str(program, &[], &mut output_buf, BUDGET)
        .expect("step budget exhausted")
        .expect("program failed");
    let output = std::str::from_utf8(&output_buf).unwrap();
    assert_eq!(output, "\x04");
}

#[test]
fn parse_program() {
    let program_str = "Put this test pancake on top!\nShow me a pancake!";
    let program_parsed = parse_program_str(program_str);

    assert_eq!(
        program_parsed,
        vec![
            Command::PutThisPancakeOnTop("test".into()),
            Command::ShowMeAPancake
        ]
    );
}

const CAT_PROGRAM: &str = "Put this plain pancake on top!\n\
[loop]\n\
Eat the pancake on top!\n\
How about a hotcake?\n\
Show me a pancake!\n\
If the pancake is tasty, go over to \"loop\".\n";

const CAT_INPUT: &[u8] =
    b"hFeuofpegiurbfoieboiejfpeiDIWUHFUIwfjoweopUBUfbeufbiubfiuwebfowmFMPIEFBO UF EFEW\x00";

#[test]
fn cat_program_parsed() {
    let program = parse_program_str(CAT_PROGRAM);
    let mut output: Vec<u8> = Vec::new();
    run_program(&program, CAT_INPUT, &mut output, BUDGET)
        .expect("step budget exhausted")
        .expect("program failed");
    assert_eq!(output, CAT_INPUT);
}

#[test]
fn cat_program_str() {
    let mut output: Vec<u8> = Vec::new();
    run_program_str(CAT_PROGRAM, CAT_INPUT, &mut output, BUDGET)
        .expect("step budget exhausted")
        .expect("program failed");
    assert_eq!(output, CAT_INPUT);
}

#[test]
fn halt_command_stops_before_later_lines() {
    let program = "Put this test pancake on top!\n\
Eat all of the pancakes!\n\
Show me a pancake!";
    let mut output: Vec<u8> = Vec::new();
    run_program_str(program, &[], &mut output, BUDGET)
        .expect("step budget exhausted")
        .expect("program failed");
    assert_eq!(output, b"");
}

#[test]
fn eat_on_empty_stack_is_out_of_pancakes() {
    let program = "Eat the pancake on top!";
    let mut output: Vec<u8> = Vec::new();
    let result = run_program_str(program, &[], &mut output, BUDGET).expect("step budget exhausted");
    assert!(matches!(result, Err(Error::OutOfPancakes)));
}

#[test]
fn backward_jump_counts_down() {
    let program = "Put this aa pancake on top!\n\
[loop]\n\
Take off the butter!\n\
If the pancake is tasty, go over to \"loop\".\n\
Show me a pancake!";
    let mut output: Vec<u8> = Vec::new();
    run_program_str(program, &[], &mut output, BUDGET)
        .expect("step budget exhausted")
        .expect("program failed");
    assert_eq!(output, b"\x00");
}

#[test]
fn jump_to_unexecuted_label_is_undefined() {
    let program = "Put this test pancake on top!\n\
If the pancake is tasty, go over to \"later\".\n\
[later]";
    let mut output: Vec<u8> = Vec::new();
    let result = run_program_str(program, &[], &mut output, BUDGET).expect("step budget exhausted");
    match result {
        Err(Error::UndefinedLabel(name)) => assert_eq!(name, "later"),
        other => panic!("expected an undefined label, got {:?}", other),
    }
}

#[test]
fn grapheme_clusters_count_as_one() {
    // The adjective is one user-perceived character built from two code
    // points; counting code points or bytes would not push one.
    let program = "Put this e\u{301} pancake on top!\nShow me a pancake!";
    let mut output: Vec<u8> = Vec::new();
    run_program_str(program, &[], &mut output, BUDGET)
        .expect("step budget exhausted")
        .expect("program failed");
    assert_eq!(output, b"\x01");
}

#[test]
fn hotcake_reads_zero_at_end_of_input() {
    let program = "How about a hotcake?\nShow me a pancake!";
    let mut output: Vec<u8> = Vec::new();
    run_program_str(program, &[], &mut output, BUDGET)
        .expect("step budget exhausted")
        .expect("program failed");
    assert_eq!(output, b"\x00");
}

#[test]
fn shown_pancakes_are_utf8_encoded() {
    let program = "Give me a pancake!\nShow me a pancake!";

    let mut two_bytes: Vec<u8> = Vec::new();
    run_program_str(program, b"233", &mut two_bytes, BUDGET)
        .expect("step budget exhausted")
        .expect("program failed");
    assert_eq!(two_bytes, vec![0xc3, 0xa9]);

    let mut four_bytes: Vec<u8> = Vec::new();
    run_program_str(program, b"128512", &mut four_bytes, BUDGET)
        .expect("step budget exhausted")
        .expect("program failed");
    assert_eq!(four_bytes, vec![0xf0, 0x9f, 0x98, 0x80]);
}

#[test]
fn surrogate_value_can_not_be_shown() {
    let program = "Give me a pancake!\nShow me a pancake!";
    let mut output: Vec<u8> = Vec::new();
    let result =
        run_program_str(program, b"55296", &mut output, BUDGET).expect("step budget exhausted");
    assert!(matches!(result, Err(Error::CanNotShowPancake(55296))));
}

#[test]
fn textual_input_is_read_without_its_terminator() {
    // Reading a line strips the terminator before parsing, so a
    // newline-terminated number is a valid pancake.
    let program = "Give me a pancake!\nShow me a pancake!";
    let mut output: Vec<u8> = Vec::new();
    run_program_str(program, b"65\nrest", &mut output, BUDGET)
        .expect("step budget exhausted")
        .expect("program failed");
    assert_eq!(output, b"A");

    let mut crlf_output: Vec<u8> = Vec::new();
    run_program_str(program, b"100\r\n", &mut crlf_output, BUDGET)
        .expect("step budget exhausted")
        .expect("program failed");
    assert_eq!(crlf_output, b"d");
}

#[test]
fn an_invalid_pancake_is_reported_without_its_terminator() {
    let program = "Give me a pancake!";
    let mut output: Vec<u8> = Vec::new();
    let result =
        run_program_str(program, b"12x\n6", &mut output, BUDGET).expect("step budget exhausted");
    match result {
        Err(Error::InvalidPancake(text)) => assert_eq!(text, "12x"),
        other => panic!("expected an invalid pancake, got {:?}", other),
    }
}

#[test]
fn an_empty_input_line_is_an_invalid_pancake() {
    let program = "Give me a pancake!";
    let mut output: Vec<u8> = Vec::new();
    let result =
        run_program_str(program, b"\n100", &mut output, BUDGET).expect("step budget exhausted");
    match result {
        Err(Error::InvalidPancake(text)) => assert_eq!(text, ""),
        other => panic!("expected an invalid pancake, got {:?}", other),
    }
}

#[test]
fn take_from_subtracts_top_minus_second() {
    let program = "How about a hotcake?\n\
How about a hotcake?\n\
Take from the top pancakes!\n\
Show me a pancake!";
    let mut output: Vec<u8> = Vec::new();
    run_program_str(program, &[5, 9], &mut output, BUDGET)
        .expect("step budget exhausted")
        .expect("program failed");
    assert_eq!(output, b"\x04");
}

#[test]
fn take_from_underflows() {
    let program = "How about a hotcake?\n\
How about a hotcake?\n\
Take from the top pancakes!";
    let mut output: Vec<u8> = Vec::new();
    let result =
        run_program_str(program, &[9, 5], &mut output, BUDGET).expect("step budget exhausted");
    assert!(matches!(result, Err(Error::PancakeUnderflow)));
}

#[test]
fn flip_swaps_the_top_two() {
    let program = "How about a hotcake?\n\
How about a hotcake?\n\
Flip the pancakes on top!\n\
Show me a pancake!";
    let mut output: Vec<u8> = Vec::new();
    run_program_str(program, b"AB", &mut output, BUDGET)
        .expect("step budget exhausted")
        .expect("program failed");
    assert_eq!(output, b"A");
}

#[test]
fn duplicate_then_eat_keeps_the_value() {
    let program = "How about a hotcake?\n\
Put another pancake on top!\n\
Eat the pancake on top!\n\
Show me a pancake!";
    let mut output: Vec<u8> = Vec::new();
    run_program_str(program, b"A", &mut output, BUDGET)
        .expect("step budget exhausted")
        .expect("program failed");
    assert_eq!(output, b"A");
}

#[test]
fn syrup_increments_every_pancake() {
    let program = "How about a hotcake?\n\
How about a hotcake?\n\
Put syrup on the pancakes!\n\
Show me a pancake!\n\
Eat the pancake on top!\n\
Show me a pancake!";
    let mut output: Vec<u8> = Vec::new();
    run_program_str(program, b"AM", &mut output, BUDGET)
        .expect("step budget exhausted")
        .expect("program failed");
    assert_eq!(output, b"NB");
}

#[test]
fn syrup_overflows_on_a_full_pancake() {
    let program = "Give me a pancake!\nPut syrup on the pancakes!";
    let mut output: Vec<u8> = Vec::new();
    let result = run_program_str(program, b"4294967295", &mut output, BUDGET)
        .expect("step budget exhausted");
    assert!(matches!(result, Err(Error::PancakeOverflow)));
}

#[test]
fn butter_underflows_on_a_zero_pancake() {
    let program = "How about a hotcake?\nTake off the butter!";
    let mut output: Vec<u8> = Vec::new();
    let result =
        run_program_str(program, &[], &mut output, BUDGET).expect("step budget exhausted");
    assert!(matches!(result, Err(Error::PancakeUnderflow)));
}

#[test]
fn an_endless_program_exhausts_the_budget() {
    let program = "Put this test pancake on top!\n\
[loop]\n\
If the pancake is tasty, go over to \"loop\".";
    let mut output: Vec<u8> = Vec::new();
    let result = run_program_str(program, &[], &mut output, 10_000);
    assert!(result.is_none());
}

#[test]
fn empty_program_finishes_without_output() {
    let mut output: Vec<u8> = Vec::new();
    run_program_str("", b"unread", &mut output, BUDGET)
        .expect("step budget exhausted")
        .expect("program failed");
    assert_eq!(output, b"");
}

#[test]
fn both_input_disciplines_share_one_stream() {
    // One raw byte, then one textual line from the same input.
    let program = "How about a hotcake?\n\
Give me a pancake!\n\
Put the top pancakes together!\n\
Show me a pancake!";
    let mut output: Vec<u8> = Vec::new();
    run_program_str(program, b"\x0560", &mut output, BUDGET)
        .expect("step budget exhausted")
        .expect("program failed");
    assert_eq!(output, b"A");
}

#[test]
fn cat_program_transcodes_high_bytes() {
    // A byte at 0x80 or above names a scalar with a two-byte UTF-8
    // encoding, so the cat program widens it on the way out.
    let mut output: Vec<u8> = Vec::new();
    run_program_str(CAT_PROGRAM, &[0xe9, 0x00], &mut output, BUDGET)
        .expect("step budget exhausted")
        .expect("program failed");
    assert_eq!(output, vec![0xc3, 0xa9, 0x00]);
}
