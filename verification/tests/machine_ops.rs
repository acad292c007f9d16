use pancakestack::stream::StreamEngine;
use pancakestack::stream::StreamEvent;
use pancakestack::stream::StreamNeed;
use pancakestack::Error;
use pancakestack::Machine;

#[test]
fn addition_overflows_with_a_full_pancake() {
    let mut machine = Machine::new();
    machine.give_pancake(b"4294967295").unwrap();
    machine.give_pancake(b"1").unwrap();
    let result = machine.put_top_together();
    assert!(matches!(result, Err(Error::PancakeOverflow)));
}

#[test]
fn addition_needs_two_pancakes() {
    let mut machine = Machine::new();
    machine.give_pancake(b"0").unwrap();
    let result = machine.put_top_together();
    assert!(matches!(result, Err(Error::OutOfPancakes)));
}

#[test]
fn eating_from_an_empty_machine_fails() {
    let mut machine = Machine::new();
    assert!(matches!(machine.eat_top(), Err(Error::OutOfPancakes)));
}

#[test]
fn a_terminated_line_gives_its_number() {
    let mut machine = Machine::new();
    machine.give_pancake(b"100\n").unwrap();
    machine.give_pancake(b"100\r\n").unwrap();
    machine.put_top_together().unwrap();
    let shown = machine.show_top().unwrap();
    assert_eq!(shown, '\u{c8}');
}

#[test]
fn a_lone_carriage_return_is_not_a_terminator() {
    let mut machine = Machine::new();
    let result = machine.give_pancake(b"100\r");
    match result {
        Err(Error::InvalidPancake(text)) => assert_eq!(text, "100\r"),
        other => panic!("expected an invalid pancake, got {:?}", other),
    }
}

#[test]
fn plus_sign_and_leading_zeros_are_accepted() {
    let mut machine = Machine::new();
    machine.give_pancake(b"+5").unwrap();
    machine.give_pancake(b"0007").unwrap();
    machine.put_top_together().unwrap();
    let shown = machine.show_top().unwrap();
    assert_eq!(shown, '\u{c}');
}

#[test]
fn a_number_too_large_is_an_invalid_pancake() {
    let mut machine = Machine::new();
    let result = machine.give_pancake(b"4294967296");
    match result {
        Err(Error::InvalidPancake(text)) => assert_eq!(text, "4294967296"),
        other => panic!("expected an invalid pancake, got {:?}", other),
    }
}

#[test]
fn garbled_input_is_reported_verbatim() {
    let mut machine = Machine::new();
    let result = machine.give_pancake(b"12x");
    match result {
        Err(Error::InvalidPancake(text)) => assert_eq!(text, "12x"),
        other => panic!("expected an invalid pancake, got {:?}", other),
    }
}

#[test]
fn the_last_definition_of_a_label_wins() {
    let mut machine = Machine::new();
    machine.give_pancake(b"1").unwrap();
    machine.define_label("x", 5).unwrap();
    machine.define_label("x", 7).unwrap();
    assert_eq!(machine.label_address("x"), Some(7));
    assert_eq!(machine.label_address("y"), None);
}

#[test]
fn defining_a_label_needs_a_pancake() {
    let mut machine = Machine::new();
    let result = machine.define_label("x", 0);
    assert!(matches!(result, Err(Error::OutOfPancakes)));
}

#[test]
fn a_stream_engine_plays_cat() {
    let lines = [
        "Put this plain pancake on top!",
        "[loop]",
        "Eat the pancake on top!",
        "How about a hotcake?",
        "Show me a pancake!",
        "If the pancake is tasty, go over to \"loop\".",
    ];
    let input: &[u8] = b"pancakes taste best stacked\x00";
    let mut fed: usize = 0;
    let mut read: usize = 0;
    let mut output: Vec<u8> = Vec::new();
    let mut engine = StreamEngine::new();
    loop {
        match engine.next_need() {
            StreamNeed::ProgramLine => {
                if fed == lines.len() {
                    break;
                }
                assert!(engine.push_line(lines[fed]));
                fed += 1;
            }
            StreamNeed::InputLine => unreachable!("the cat program reads no lines"),
            StreamNeed::InputByte => {
                let byte = if read < input.len() { input[read] } else { 0 };
                read += 1;
                engine.step_input_byte(byte);
            }
            StreamNeed::Step => match engine.step_basic().expect("program failed") {
                StreamEvent::Advanced => {}
                StreamEvent::Output(c) => {
                    let mut buf = [0u8; 4];
                    output.extend_from_slice(c.encode_utf8(&mut buf).as_bytes());
                }
                StreamEvent::Halted => break,
            },
        }
    }
    assert_eq!(output, input);
}

#[test]
fn a_stream_engine_skips_unparseable_lines() {
    let mut engine = StreamEngine::new();
    assert!(!engine.push_line("this is no command"));
    assert!(engine.push_line("Show me a pancake!"));
    let result = engine.step_basic();
    assert!(matches!(result, Err(Error::OutOfPancakes)));
}

#[test]
fn errors_describe_themselves() {
    let mut machine = Machine::new();
    let eat = machine.eat_top().unwrap_err();
    assert_eq!(eat.message(), "Out of pancakes!");

    machine.give_pancake(b"55296").unwrap();
    let shown = machine.show_top().unwrap_err();
    assert_eq!(
        shown.message(),
        "Pancake can not be shown (invalid char): 55296"
    );

    let invalid = machine.give_pancake(b"12x").unwrap_err();
    assert_eq!(invalid.message(), "Invalid pancake: 12x");
}
