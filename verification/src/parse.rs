//! The command model and the line parser.
//!
//! Each line of a program is one command. Thirteen commands are fixed
//! literal sentences; four carry a payload (an adjective or a label
//! name) embedded in a fixed sentence shape. The grammar is specified
//! by [`parse_line_spec`] and implemented by [`Command::from_line`];
//! [`Command::render`] produces the canonical textual form.

use vstd::prelude::*;

use crate::text::{
    is_blank_line, line_is_blank, matches_at, no_newline_in, no_white_space_in,
    range_free_of_newline, range_free_of_white_space, split_into_lines, split_lines, str_eq,
    str_matches_at,
};

verus! {

/// One command of the language, as parsed from one program line.
///
/// Payload-bearing variants own their string; all other variants are
/// plain markers. Equality is structural.
#[derive(Debug, Clone, PartialEq, Eq)]
pub enum Command {
    PutThisPancakeOnTop(String),
    EatThePancakeOnTop,
    PutTheTopPancakesTogether,
    GiveMeAPancake,
    HowAboutAHotcake,
    ShowMeAPancake,
    TakeFromTheTopPancakes,
    FlipThePancakesOnTop,
    PutAnotherPancakeOnTop,
    Label(String),
    IfThePancakeIsntTastyGoOverTo(String),
    IfThePancakeIsTastyGoOverTo(String),
    PutSyrupOnThePancakes,
    PutButterOnThePancakes,
    TakeOffTheSyrup,
    TakeOffTheButter,
    EatAllOfThePancakes,
}

/// The mathematical model of a [`Command`]: payloads are character
/// sequences.
pub enum CommandModel {
    PutThisPancakeOnTop(Seq<char>),
    EatThePancakeOnTop,
    PutTheTopPancakesTogether,
    GiveMeAPancake,
    HowAboutAHotcake,
    ShowMeAPancake,
    TakeFromTheTopPancakes,
    FlipThePancakesOnTop,
    PutAnotherPancakeOnTop,
    Label(Seq<char>),
    IfThePancakeIsntTastyGoOverTo(Seq<char>),
    IfThePancakeIsTastyGoOverTo(Seq<char>),
    PutSyrupOnThePancakes,
    PutButterOnThePancakes,
    TakeOffTheSyrup,
    TakeOffTheButter,
    EatAllOfThePancakes,
}

impl View for Command {
    type V = CommandModel;

    open spec fn view(&self) -> CommandModel {
        match self {
            Command::PutThisPancakeOnTop(adj) => CommandModel::PutThisPancakeOnTop(adj@),
            Command::EatThePancakeOnTop => CommandModel::EatThePancakeOnTop,
            Command::PutTheTopPancakesTogether => CommandModel::PutTheTopPancakesTogether,
            Command::GiveMeAPancake => CommandModel::GiveMeAPancake,
            Command::HowAboutAHotcake => CommandModel::HowAboutAHotcake,
            Command::ShowMeAPancake => CommandModel::ShowMeAPancake,
            Command::TakeFromTheTopPancakes => CommandModel::TakeFromTheTopPancakes,
            Command::FlipThePancakesOnTop => CommandModel::FlipThePancakesOnTop,
            Command::PutAnotherPancakeOnTop => CommandModel::PutAnotherPancakeOnTop,
            Command::Label(name) => CommandModel::Label(name@),
            Command::IfThePancakeIsntTastyGoOverTo(name) => CommandModel::IfThePancakeIsntTastyGoOverTo(name@),
            Command::IfThePancakeIsTastyGoOverTo(name) => CommandModel::IfThePancakeIsTastyGoOverTo(name@),
            Command::PutSyrupOnThePancakes => CommandModel::PutSyrupOnThePancakes,
            Command::PutButterOnThePancakes => CommandModel::PutButterOnThePancakes,
            Command::TakeOffTheSyrup => CommandModel::TakeOffTheSyrup,
            Command::TakeOffTheButter => CommandModel::TakeOffTheButter,
            Command::EatAllOfThePancakes => CommandModel::EatAllOfThePancakes,
        }
    }
}

impl DeepView for Command {
    type V = CommandModel;

    open spec fn deep_view(&self) -> CommandModel {
        self.view()
    }
}

/// The sentence opening of the adjective command.
pub open spec fn adjective_prefix() -> Seq<char> {
    "Put this "@
}

/// The sentence close of the adjective command.
pub open spec fn adjective_suffix() -> Seq<char> {
    " pancake on top!"@
}

/// The sentence opening of the branch taken on a tasteless pancake.
pub open spec fn branch_isnt_prefix() -> Seq<char> {
    "If the pancake isn't tasty, go over to \""@
}

/// The sentence opening of the branch taken on a tasty pancake.
pub open spec fn branch_is_prefix() -> Seq<char> {
    "If the pancake is tasty, go over to \""@
}

/// The sentence close of both branch commands.
pub open spec fn branch_suffix() -> Seq<char> {
    "\"."@
}

/// True when the line is the adjective command: the fixed opening, a
/// whitespace-free (possibly empty) adjective, and the fixed close.
pub open spec fn parses_as_adjective_put(line: Seq<char>) -> bool {
    &&& line.len() >= adjective_prefix().len() + adjective_suffix().len()
    &&& matches_at(line, 0, adjective_prefix())
    &&& matches_at(line, line.len() - adjective_suffix().len(), adjective_suffix())
    &&& no_white_space_in(
        line,
        adjective_prefix().len() as int,
        line.len() - adjective_suffix().len(),
    )
}

/// The adjective captured from an adjective-command line.
pub open spec fn adjective_of(line: Seq<char>) -> Seq<char> {
    line.subrange(adjective_prefix().len() as int, line.len() - adjective_suffix().len())
}

/// True when the line is a label definition: a non-empty name, free of
/// line feeds, between one opening and one closing bracket.
pub open spec fn parses_as_label(line: Seq<char>) -> bool {
    &&& line.len() >= 3
    &&& line[0] == '['
    &&& line[line.len() - 1] == ']'
    &&& no_newline_in(line, 1, line.len() - 1)
}

/// The name captured from a label line.
pub open spec fn label_of(line: Seq<char>) -> Seq<char> {
    line.subrange(1, line.len() - 1)
}

/// True when the line is a branch command with the given opening: the
/// opening, a (possibly empty) target name free of line feeds, and the
/// fixed close.
pub open spec fn parses_as_branch(line: Seq<char>, prefix: Seq<char>) -> bool {
    &&& line.len() >= prefix.len() + branch_suffix().len()
    &&& matches_at(line, 0, prefix)
    &&& matches_at(line, line.len() - branch_suffix().len(), branch_suffix())
    &&& no_newline_in(line, prefix.len() as int, line.len() - branch_suffix().len())
}

/// The target name captured from a branch line with the given opening.
pub open spec fn branch_target_of(line: Seq<char>, prefix: Seq<char>) -> Seq<char> {
    line.subrange(prefix.len() as int, line.len() - branch_suffix().len())
}

/// The grammar of one program line: the thirteen literal sentences are
/// recognised first, then the four payload-carrying shapes, in the
/// fixed order adjective, label, tasteless branch, tasty branch. The
/// first recognizer that accepts the line decides; a line no
/// recognizer accepts is no command.
pub open spec fn parse_line_spec(line: Seq<char>) -> Option<CommandModel> {
    if line == "Eat the pancake on top!"@ {
        Some(CommandModel::EatThePancakeOnTop)
    } else if line == "Put the top pancakes together!"@ {
        Some(CommandModel::PutTheTopPancakesTogether)
    } else if line == "Give me a pancake!"@ {
        Some(CommandModel::GiveMeAPancake)
    } else if line == "How about a hotcake?"@ {
        Some(CommandModel::HowAboutAHotcake)
    } else if line == "Show me a pancake!"@ {
        Some(CommandModel::ShowMeAPancake)
    } else if line == "Take from the top pancakes!"@ {
        Some(CommandModel::TakeFromTheTopPancakes)
    } else if line == "Flip the pancakes on top!"@ {
        Some(CommandModel::FlipThePancakesOnTop)
    } else if line == "Put another pancake on top!"@ {
        Some(CommandModel::PutAnotherPancakeOnTop)
    } else if line == "Put syrup on the pancakes!"@ {
        Some(CommandModel::PutSyrupOnThePancakes)
    } else if line == "Put butter on the pancakes!"@ {
        Some(CommandModel::PutButterOnThePancakes)
    } else if line == "Take off the syrup!"@ {
        Some(CommandModel::TakeOffTheSyrup)
    } else if line == "Take off the butter!"@ {
        Some(CommandModel::TakeOffTheButter)
    } else if line == "Eat all of the pancakes!"@ {
        Some(CommandModel::EatAllOfThePancakes)
    } else if parses_as_adjective_put(line) {
        Some(CommandModel::PutThisPancakeOnTop(adjective_of(line)))
    } else if parses_as_label(line) {
        Some(CommandModel::Label(label_of(line)))
    } else if parses_as_branch(line, branch_isnt_prefix()) {
        Some(CommandModel::IfThePancakeIsntTastyGoOverTo(branch_target_of(line, branch_isnt_prefix())))
    } else if parses_as_branch(line, branch_is_prefix()) {
        Some(CommandModel::IfThePancakeIsTastyGoOverTo(branch_target_of(line, branch_is_prefix())))
    } else {
        None
    }
}

/// The canonical textual form of a command: the line that renders it.
pub open spec fn render_spec(c: CommandModel) -> Seq<char> {
    match c {
        CommandModel::PutThisPancakeOnTop(adj) => adjective_prefix() + adj + adjective_suffix(),
        CommandModel::EatThePancakeOnTop => "Eat the pancake on top!"@,
        CommandModel::PutTheTopPancakesTogether => "Put the top pancakes together!"@,
        CommandModel::GiveMeAPancake => "Give me a pancake!"@,
        CommandModel::HowAboutAHotcake => "How about a hotcake?"@,
        CommandModel::ShowMeAPancake => "Show me a pancake!"@,
        CommandModel::TakeFromTheTopPancakes => "Take from the top pancakes!"@,
        CommandModel::FlipThePancakesOnTop => "Flip the pancakes on top!"@,
        CommandModel::PutAnotherPancakeOnTop => "Put another pancake on top!"@,
        CommandModel::Label(name) => "["@ + name + "]"@,
        CommandModel::IfThePancakeIsntTastyGoOverTo(name) => branch_isnt_prefix() + name
            + branch_suffix(),
        CommandModel::IfThePancakeIsTastyGoOverTo(name) => branch_is_prefix() + name
            + branch_suffix(),
        CommandModel::PutSyrupOnThePancakes => "Put syrup on the pancakes!"@,
        CommandModel::PutButterOnThePancakes => "Put butter on the pancakes!"@,
        CommandModel::TakeOffTheSyrup => "Take off the syrup!"@,
        CommandModel::TakeOffTheButter => "Take off the butter!"@,
        CommandModel::EatAllOfThePancakes => "Eat all of the pancakes!"@,
    }
}

/// A line that could not be parsed as a command; it carries the
/// offending line for diagnostics.
#[derive(Debug)]
pub struct CommandParseError {
    line: String,
}

impl View for CommandParseError {
    type V = Seq<char>;

    closed spec fn view(&self) -> Seq<char> {
        self.line@
    }
}

impl CommandParseError {
    /// Records the given line as unparseable.
    pub fn new(line: &str) -> (e: Self)
        ensures
            e@ == line@,
    {
        CommandParseError { line: line.to_owned() }
    }

    /// The line that failed to parse.
    pub fn line(&self) -> (r: &str)
        ensures
            r@ == self@,
    {
        self.line.as_str()
    }

    /// Describes the failure, for diagnostics.
    pub fn message(&self) -> (s: String)
        ensures
            s@ == "Failed to parse command: "@ + self@,
    {
        let mut s = String::from_str("Failed to parse command: ");
        s.append(self.line.as_str());
        s
    }
}

impl Command {
    /// Parses one line as a command, per [`parse_line_spec`]; rejected
    /// lines are returned inside the error.
    pub fn from_line(line: &str) -> (r: Result<Command, CommandParseError>)
        ensures
            match r {
                Ok(c) => parse_line_spec(line@) == Some(c@),
                Err(e) => parse_line_spec(line@) is None && e@ == line@,
            },
    {
        if str_eq(line, "Eat the pancake on top!") {
            return Ok(Command::EatThePancakeOnTop);
        }
        if str_eq(line, "Put the top pancakes together!") {
            return Ok(Command::PutTheTopPancakesTogether);
        }
        if str_eq(line, "Give me a pancake!") {
            return Ok(Command::GiveMeAPancake);
        }
        if str_eq(line, "How about a hotcake?") {
            return Ok(Command::HowAboutAHotcake);
        }
        if str_eq(line, "Show me a pancake!") {
            return Ok(Command::ShowMeAPancake);
        }
        if str_eq(line, "Take from the top pancakes!") {
            return Ok(Command::TakeFromTheTopPancakes);
        }
        if str_eq(line, "Flip the pancakes on top!") {
            return Ok(Command::FlipThePancakesOnTop);
        }
        if str_eq(line, "Put another pancake on top!") {
            return Ok(Command::PutAnotherPancakeOnTop);
        }
        if str_eq(line, "Put syrup on the pancakes!") {
            return Ok(Command::PutSyrupOnThePancakes);
        }
        if str_eq(line, "Put butter on the pancakes!") {
            return Ok(Command::PutButterOnThePancakes);
        }
        if str_eq(line, "Take off the syrup!") {
            return Ok(Command::TakeOffTheSyrup);
        }
        if str_eq(line, "Take off the butter!") {
            return Ok(Command::TakeOffTheButter);
        }
        if str_eq(line, "Eat all of the pancakes!") {
            return Ok(Command::EatAllOfThePancakes);
        }
        let n: usize = line.unicode_len();

        let put_prefix: &str = "Put this ";
        let put_suffix: &str = " pancake on top!";
        let plen: usize = put_prefix.unicode_len();
        let slen: usize = put_suffix.unicode_len();
        if n >= slen && n - slen >= plen && str_matches_at(line, 0, put_prefix) && str_matches_at(
            line,
            n - slen,
            put_suffix,
        ) && range_free_of_white_space(line, plen, n - slen) {
            let adj: &str = line.substring_char(plen, n - slen);
            return Ok(Command::PutThisPancakeOnTop(adj.to_owned()));
        }

        if n >= 3 && line.get_char(0) == '[' && line.get_char(n - 1) == ']'
            && range_free_of_newline(line, 1, n - 1) {
            let name: &str = line.substring_char(1, n - 1);
            return Ok(Command::Label(name.to_owned()));
        }

        let isnt_prefix: &str = "If the pancake isn't tasty, go over to \"";
        let is_prefix: &str = "If the pancake is tasty, go over to \"";
        let close: &str = "\".";
        let clen: usize = close.unicode_len();

        let ilen: usize = isnt_prefix.unicode_len();
        if n >= clen && n - clen >= ilen && str_matches_at(line, 0, isnt_prefix) && str_matches_at(
            line,
            n - clen,
            close,
        ) && range_free_of_newline(line, ilen, n - clen) {
            let name: &str = line.substring_char(ilen, n - clen);
            return Ok(Command::IfThePancakeIsntTastyGoOverTo(name.to_owned()));
        }

        let tlen: usize = is_prefix.unicode_len();
        if n >= clen && n - clen >= tlen && str_matches_at(line, 0, is_prefix) && str_matches_at(
            line,
            n - clen,
            close,
        ) && range_free_of_newline(line, tlen, n - clen) {
            let name: &str = line.substring_char(tlen, n - clen);
            return Ok(Command::IfThePancakeIsTastyGoOverTo(name.to_owned()));
        }

        Err(CommandParseError::new(line))
    }

    /// Renders the command in its canonical textual form, per
    /// [`render_spec`].
    pub fn render(&self) -> (r: String)
        ensures
            r@ == render_spec(self@),
    {
        match self {
            Command::PutThisPancakeOnTop(adj) => {
                let mut s = String::from_str("Put this ");
                s.append(adj.as_str());
                s.append(" pancake on top!");
                s
            },
            Command::EatThePancakeOnTop => String::from_str("Eat the pancake on top!"),
            Command::PutTheTopPancakesTogether => String::from_str(
                "Put the top pancakes together!",
            ),
            Command::GiveMeAPancake => String::from_str("Give me a pancake!"),
            Command::HowAboutAHotcake => String::from_str("How about a hotcake?"),
            Command::ShowMeAPancake => String::from_str("Show me a pancake!"),
            Command::TakeFromTheTopPancakes => String::from_str("Take from the top pancakes!"),
            Command::FlipThePancakesOnTop => String::from_str("Flip the pancakes on top!"),
            Command::PutAnotherPancakeOnTop => String::from_str("Put another pancake on top!"),
            Command::Label(name) => {
                let mut s = String::from_str("[");
                s.append(name.as_str());
                s.append("]");
                s
            },
            Command::IfThePancakeIsntTastyGoOverTo(name) => {
                let mut s = String::from_str("If the pancake isn't tasty, go over to \"");
                s.append(name.as_str());
                s.append("\".");
                s
            },
            Command::IfThePancakeIsTastyGoOverTo(name) => {
                let mut s = String::from_str("If the pancake is tasty, go over to \"");
                s.append(name.as_str());
                s.append("\".");
                s
            },
            Command::PutSyrupOnThePancakes => String::from_str("Put syrup on the pancakes!"),
            Command::PutButterOnThePancakes => String::from_str("Put butter on the pancakes!"),
            Command::TakeOffTheSyrup => String::from_str("Take off the syrup!"),
            Command::TakeOffTheButter => String::from_str("Take off the butter!"),
            Command::EatAllOfThePancakes => String::from_str("Eat all of the pancakes!"),
        }
    }

    /// A copy of this command that owns fresh strings.
    pub fn to_owned(&self) -> (c: Command)
        ensures
            c@ == self@,
    {
        match self {
            Command::PutThisPancakeOnTop(adj) => Command::PutThisPancakeOnTop(adj.clone()),
            Command::EatThePancakeOnTop => Command::EatThePancakeOnTop,
            Command::PutTheTopPancakesTogether => Command::PutTheTopPancakesTogether,
            Command::GiveMeAPancake => Command::GiveMeAPancake,
            Command::HowAboutAHotcake => Command::HowAboutAHotcake,
            Command::ShowMeAPancake => Command::ShowMeAPancake,
            Command::TakeFromTheTopPancakes => Command::TakeFromTheTopPancakes,
            Command::FlipThePancakesOnTop => Command::FlipThePancakesOnTop,
            Command::PutAnotherPancakeOnTop => Command::PutAnotherPancakeOnTop,
            Command::Label(name) => Command::Label(name.clone()),
            Command::IfThePancakeIsntTastyGoOverTo(name) => Command::IfThePancakeIsntTastyGoOverTo(
                name.clone(),
            ),
            Command::IfThePancakeIsTastyGoOverTo(name) => Command::IfThePancakeIsTastyGoOverTo(
                name.clone(),
            ),
            Command::PutSyrupOnThePancakes => Command::PutSyrupOnThePancakes,
            Command::PutButterOnThePancakes => Command::PutButterOnThePancakes,
            Command::TakeOffTheSyrup => Command::TakeOffTheSyrup,
            Command::TakeOffTheButter => Command::TakeOffTheButter,
            Command::EatAllOfThePancakes => Command::EatAllOfThePancakes,
        }
    }

    /// Consumes this command; with one owned representation there is
    /// nothing left to convert.
    pub fn into_owned(self) -> (c: Command)
        ensures
            c@ == self@,
    {
        self
    }

    /// A copy of this command for use alongside the original.
    pub fn borrow(&self) -> (c: Command)
        ensures
            c@ == self@,
    {
        self.to_owned()
    }
}

/// The commands denoted by a program text: each line parsed by the
/// grammar, in order, with unparseable lines left out.
pub open spec fn parse_lines_spec(lines: Seq<Seq<char>>) -> Seq<CommandModel>
    decreases lines.len(),
{
    if lines.len() == 0 {
        seq![]
    } else {
        parse_lines_spec(lines.drop_last()) + (match parse_line_spec(lines.last()) {
            Some(c) => seq![c],
            None => seq![],
        })
    }
}

/// The command sequence of a whole program text.
pub open spec fn parse_program_spec(text: Seq<char>) -> Seq<CommandModel> {
    parse_lines_spec(split_lines(text))
}

/// The lines a loader reports: the non-blank ones that parse as no
/// command, in order, each exactly once.
pub open spec fn rejected_lines_spec(lines: Seq<Seq<char>>) -> Seq<Seq<char>>
    decreases lines.len(),
{
    if lines.len() == 0 {
        seq![]
    } else {
        rejected_lines_spec(lines.drop_last()) + (
        if parse_line_spec(lines.last()) is None && !is_blank_line(lines.last()) {
            seq![lines.last()]
        } else {
            seq![]
        })
    }
}

/// Parses a program text into its command sequence, one command per
/// line, and collects the non-blank lines that parse as no command, so
/// that a caller can report each offending line once. Blank lines are
/// skipped silently.
pub fn parse_program_report(program: &str) -> (r: (Vec<Command>, Vec<String>))
    ensures
        r.0.deep_view() == parse_program_spec(program@),
        r.1.deep_view() == rejected_lines_spec(split_lines(program@)),
{
    let lines: Vec<&str> = split_into_lines(program);
    let mut out: Vec<Command> = Vec::new();
    let mut rejected: Vec<String> = Vec::new();
    let ghost all = lines.deep_view();
    proof {
        assert(out.deep_view() =~= parse_lines_spec(all.subrange(0, 0)));
        assert(rejected.deep_view() =~= rejected_lines_spec(all.subrange(0, 0)));
    }
    let mut i: usize = 0;
    while i < lines.len()
        invariant
            all == lines.deep_view(),
            all.len() == lines.len(),
            0 <= i <= lines.len(),
            out.deep_view() == parse_lines_spec(all.subrange(0, i as int)),
            rejected.deep_view() == rejected_lines_spec(all.subrange(0, i as int)),
        decreases lines.len() - i,
    {
        proof {
            assert(all.subrange(0, i + 1).drop_last() =~= all.subrange(0, i as int));
            assert(all.subrange(0, i + 1).last() == lines[i as int]@);
        }
        let ghost prev = out.deep_view();
        let ghost prev_rejected = rejected.deep_view();
        match Command::from_line(lines[i]) {
            Ok(c) => {
                out.push(c);
                proof {
                    assert(out.deep_view() =~= prev.push(c@));
                    assert(out.deep_view() =~= parse_lines_spec(all.subrange(0, i + 1)));
                    assert(rejected.deep_view() =~= rejected_lines_spec(all.subrange(0, i + 1)));
                }
            },
            Err(_) => {
                if !line_is_blank(lines[i]) {
                    rejected.push(lines[i].to_owned());
                    proof {
                        assert(rejected.deep_view() =~= prev_rejected.push(lines[i as int]@));
                    }
                }
                proof {
                    assert(out.deep_view() =~= parse_lines_spec(all.subrange(0, i + 1)));
                    assert(rejected.deep_view() =~= rejected_lines_spec(all.subrange(0, i + 1)));
                }
            },
        }
        i = i + 1;
    }
    proof {
        assert(all.subrange(0, lines.len() as int) =~= all);
        assert(split_lines(program@).subrange(0, split_lines(program@).len() as int) =~= split_lines(
            program@,
        ));
    }
    (out, rejected)
}

/// Parses a program text into its command sequence, one command per
/// line, silently skipping lines that parse as no command.
pub fn parse_program_str(program: &str) -> (r: Vec<Command>)
    ensures
        r.deep_view() == parse_program_spec(program@),
{
    let parsed = parse_program_report(program);
    parsed.0
}

} // verus!
