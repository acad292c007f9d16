use pancakestack::parse_program_report;
use pancakestack::parse_program_str;
use pancakestack::Command;

fn roundtrip(command: Command) {
    let line = command.render();
    let parsed = Command::from_line(&line).expect("rendered line failed to parse");
    assert_eq!(parsed, command);
}

#[test]
fn every_command_parses_back_from_its_rendering() {
    roundtrip(Command::PutThisPancakeOnTop("test".into()));
    roundtrip(Command::PutThisPancakeOnTop("".into()));
    roundtrip(Command::EatThePancakeOnTop);
    roundtrip(Command::PutTheTopPancakesTogether);
    roundtrip(Command::GiveMeAPancake);
    roundtrip(Command::HowAboutAHotcake);
    roundtrip(Command::ShowMeAPancake);
    roundtrip(Command::TakeFromTheTopPancakes);
    roundtrip(Command::FlipThePancakesOnTop);
    roundtrip(Command::PutAnotherPancakeOnTop);
    roundtrip(Command::Label("loop".into()));
    roundtrip(Command::Label("a]b".into()));
    roundtrip(Command::IfThePancakeIsntTastyGoOverTo("loop".into()));
    roundtrip(Command::IfThePancakeIsntTastyGoOverTo("".into()));
    roundtrip(Command::IfThePancakeIsTastyGoOverTo("x\".y".into()));
    roundtrip(Command::PutSyrupOnThePancakes);
    roundtrip(Command::PutButterOnThePancakes);
    roundtrip(Command::TakeOffTheSyrup);
    roundtrip(Command::TakeOffTheButter);
    roundtrip(Command::EatAllOfThePancakes);
}

#[test]
fn adjective_may_be_empty() {
    let parsed = Command::from_line("Put this  pancake on top!").unwrap();
    assert_eq!(parsed, Command::PutThisPancakeOnTop("".into()));
}

#[test]
fn adjective_must_be_free_of_whitespace() {
    assert!(Command::from_line("Put this a b pancake on top!").is_err());
    assert!(Command::from_line("Put this a\u{a0}b pancake on top!").is_err());
}

#[test]
fn label_captures_everything_between_the_brackets() {
    let parsed = Command::from_line("[a]b]").unwrap();
    assert_eq!(parsed, Command::Label("a]b".into()));
    assert!(Command::from_line("[]").is_err());
}

#[test]
fn branch_lines_capture_their_target() {
    let parsed = Command::from_line("If the pancake isn't tasty, go over to \"start\".").unwrap();
    assert_eq!(
        parsed,
        Command::IfThePancakeIsntTastyGoOverTo("start".into())
    );
    let parsed = Command::from_line("If the pancake is tasty, go over to \"\".").unwrap();
    assert_eq!(parsed, Command::IfThePancakeIsTastyGoOverTo("".into()));
}

#[test]
fn an_unparseable_line_is_reported_in_the_error() {
    let error = Command::from_line("Please pass the maple syrup!").unwrap_err();
    assert_eq!(error.line(), "Please pass the maple syrup!");
}

#[test]
fn loader_skips_blank_and_unparseable_lines() {
    let text = "Show me a pancake!\r\nEat all of the pancakes!\n\nnot a command\n";
    let program = parse_program_str(text);
    assert_eq!(
        program,
        vec![Command::ShowMeAPancake, Command::EatAllOfThePancakes]
    );
}

#[test]
fn loader_collects_offending_lines_for_reporting() {
    let text = "Show me a pancake!\n\nnot a command\n   \nnor this one\nEat all of the pancakes!";
    let (program, rejected) = parse_program_report(text);
    assert_eq!(
        program,
        vec![Command::ShowMeAPancake, Command::EatAllOfThePancakes]
    );
    assert_eq!(rejected, vec!["not a command", "nor this one"]);
}

#[test]
fn conversions_preserve_the_command() {
    let command = Command::PutThisPancakeOnTop("fluffy".into());
    assert_eq!(command.to_owned(), command);
    assert_eq!(command.borrow(), command);
    assert_eq!(command.clone().into_owned(), command);
}

#[test]
fn parse_errors_describe_themselves() {
    let error = Command::from_line("Please pass the maple syrup!").unwrap_err();
    assert_eq!(
        error.message(),
        "Failed to parse command: Please pass the maple syrup!"
    );
}
