//! Laws of the library, stated and proved once and for all inputs:
//! the parser inverts rendering, recorded labels always point at their
//! defining lines and taken branches follow them, and a cat-like
//! program copies its input to its output.

use vstd::prelude::*;

use crate::interpret::{init_state, run_steps, step, RunModel, StateModel};
use crate::machine::{ErrorModel, MachineModel};
use crate::parse::{
    adjective_of, adjective_prefix, adjective_suffix, branch_is_prefix, branch_isnt_prefix,
    branch_suffix, branch_target_of, label_of, parse_line_spec, parses_as_adjective_put,
    parses_as_branch, parses_as_label, render_spec, CommandModel,
};
use crate::text::{no_newline_in, no_white_space_in};
use vstd::utf8::{encode_scalar, is_scalar};

verus! {

/// True when a command's payload survives rendering: the grammar can
/// only carry a whitespace-free adjective, a non-empty label name, and
/// names without line feeds. Commands without payload always qualify.
pub open spec fn renderable(c: CommandModel) -> bool {
    match c {
        CommandModel::PutThisPancakeOnTop(adj) => no_white_space_in(adj, 0, adj.len() as int),
        CommandModel::Label(name) => name.len() >= 1 && no_newline_in(name, 0, name.len() as int),
        CommandModel::IfThePancakeIsntTastyGoOverTo(name) => no_newline_in(
            name,
            0,
            name.len() as int,
        ),
        CommandModel::IfThePancakeIsTastyGoOverTo(name) => no_newline_in(
            name,
            0,
            name.len() as int,
        ),
        _ => true,
    }
}

/// Two sequences differing at one position are different.
proof fn seq_differ_at(a: Seq<char>, b: Seq<char>, i: int)
    requires
        0 <= i < a.len(),
        0 <= i < b.len(),
        a[i] != b[i],
    ensures
        a != b,
{
}

proof fn reveal_sentence_literals()
    ensures
        adjective_prefix().len() == 9,
        adjective_prefix()[0] == 'P',
        adjective_prefix()[4] == 't',
        adjective_prefix()[6] == 'i',
        adjective_suffix().len() == 16,
        branch_isnt_prefix().len() == 40,
        branch_isnt_prefix()[0] == 'I',
        branch_isnt_prefix()[17] == 'n',
        branch_is_prefix().len() == 37,
        branch_is_prefix()[0] == 'I',
        branch_is_prefix()[17] == ' ',
        branch_suffix().len() == 2,
        "["@.len() == 1 && "["@[0] == '[',
        "]"@.len() == 1 && "]"@[0] == ']',
{
    reveal_strlit("Put this ");
    reveal_strlit(" pancake on top!");
    reveal_strlit("If the pancake isn't tasty, go over to \"");
    reveal_strlit("If the pancake is tasty, go over to \"");
    reveal_strlit("\".");
    reveal_strlit("[");
    reveal_strlit("]");
}

proof fn reveal_marker_literals()
    ensures
        "Eat the pancake on top!"@.len() == 23,
        "Put the top pancakes together!"@.len() == 30,
        "Give me a pancake!"@.len() == 18,
        "How about a hotcake?"@.len() == 20,
        "Show me a pancake!"@.len() == 18,
        "Take from the top pancakes!"@.len() == 27,
        "Flip the pancakes on top!"@.len() == 25,
        "Put another pancake on top!"@.len() == 27,
        "Put syrup on the pancakes!"@.len() == 26,
        "Put butter on the pancakes!"@.len() == 27,
        "Take off the syrup!"@.len() == 19,
        "Take off the butter!"@.len() == 20,
        "Eat all of the pancakes!"@.len() == 24,
        "Give me a pancake!"@[0] == 'G',
        "Show me a pancake!"@[0] == 'S',
        "Take from the top pancakes!"@[0] == 'T',
        "Put another pancake on top!"@[0] == 'P',
        "Put another pancake on top!"@[4] == 'a',
        "Put butter on the pancakes!"@[0] == 'P',
        "Put butter on the pancakes!"@[4] == 'b',
        "How about a hotcake?"@[0] == 'H',
        "Take off the butter!"@[0] == 'T',
        "Eat the pancake on top!"@[0] == 'E',
        "Put the top pancakes together!"@[0] == 'P',
        "Put the top pancakes together!"@[6] == 'e',
        "Flip the pancakes on top!"@[0] == 'F',
        "Put syrup on the pancakes!"@[0] == 'P',
        "Put syrup on the pancakes!"@[4] == 's',
        "Take off the syrup!"@[0] == 'T',
        "Eat all of the pancakes!"@[0] == 'E',
        "Eat all of the pancakes!"@[4] == 'a',
        "Show me a pancake!"@ != "Give me a pancake!"@,
        "Take off the butter!"@ != "How about a hotcake?"@,
        "Put another pancake on top!"@ != "Take from the top pancakes!"@,
        "Put butter on the pancakes!"@ != "Take from the top pancakes!"@,
        "Put butter on the pancakes!"@ != "Put another pancake on top!"@,
{
    reveal_strlit("Eat the pancake on top!");
    reveal_strlit("Put the top pancakes together!");
    reveal_strlit("Give me a pancake!");
    reveal_strlit("How about a hotcake?");
    reveal_strlit("Show me a pancake!");
    reveal_strlit("Take from the top pancakes!");
    reveal_strlit("Flip the pancakes on top!");
    reveal_strlit("Put another pancake on top!");
    reveal_strlit("Put syrup on the pancakes!");
    reveal_strlit("Put butter on the pancakes!");
    reveal_strlit("Take off the syrup!");
    reveal_strlit("Take off the butter!");
    reveal_strlit("Eat all of the pancakes!");
    seq_differ_at("Show me a pancake!"@, "Give me a pancake!"@, 0);
    seq_differ_at("Take off the butter!"@, "How about a hotcake?"@, 0);
    seq_differ_at("Put another pancake on top!"@, "Take from the top pancakes!"@, 0);
    seq_differ_at("Put butter on the pancakes!"@, "Take from the top pancakes!"@, 0);
    seq_differ_at("Put butter on the pancakes!"@, "Put another pancake on top!"@, 4);
}

/// Rendering a payload-free command and parsing the line back returns
/// the command: each such command renders to its own literal sentence,
/// and the thirteen sentences are pairwise distinct.
proof fn lemma_roundtrip_marker(c: CommandModel)
    requires
        !(c is PutThisPancakeOnTop),
        !(c is Label),
        !(c is IfThePancakeIsntTastyGoOverTo),
        !(c is IfThePancakeIsTastyGoOverTo),
    ensures
        parse_line_spec(render_spec(c)) == Some(c),
{
    reveal_marker_literals();
    match c {
        CommandModel::EatThePancakeOnTop => {
            assert(parse_line_spec(render_spec(c)) == Some(c));
        },
        CommandModel::PutTheTopPancakesTogether => {
            assert(parse_line_spec(render_spec(c)) == Some(c));
        },
        CommandModel::GiveMeAPancake => {
            assert(parse_line_spec(render_spec(c)) == Some(c));
        },
        CommandModel::HowAboutAHotcake => {
            assert(parse_line_spec(render_spec(c)) == Some(c));
        },
        CommandModel::ShowMeAPancake => {
            assert(parse_line_spec(render_spec(c)) == Some(c));
        },
        CommandModel::TakeFromTheTopPancakes => {
            assert(parse_line_spec(render_spec(c)) == Some(c));
        },
        CommandModel::FlipThePancakesOnTop => {
            assert(parse_line_spec(render_spec(c)) == Some(c));
        },
        CommandModel::PutAnotherPancakeOnTop => {
            assert(parse_line_spec(render_spec(c)) == Some(c));
        },
        CommandModel::PutSyrupOnThePancakes => {
            assert(parse_line_spec(render_spec(c)) == Some(c));
        },
        CommandModel::PutButterOnThePancakes => {
            assert(parse_line_spec(render_spec(c)) == Some(c));
        },
        CommandModel::TakeOffTheSyrup => {
            assert(parse_line_spec(render_spec(c)) == Some(c));
        },
        CommandModel::TakeOffTheButter => {
            assert(parse_line_spec(render_spec(c)) == Some(c));
        },
        CommandModel::EatAllOfThePancakes => {
            assert(parse_line_spec(render_spec(c)) == Some(c));
        },
        _ => {},
    }
}

/// Rendering the adjective command and parsing the line returns the
/// command, as long as the adjective is free of whitespace.
proof fn lemma_roundtrip_adjective(adj: Seq<char>)
    requires
        no_white_space_in(adj, 0, adj.len() as int),
    ensures
        parse_line_spec(render_spec(CommandModel::PutThisPancakeOnTop(adj))) == Some(
            CommandModel::PutThisPancakeOnTop(adj),
        ),
{
    reveal_sentence_literals();
    reveal_marker_literals();
    let line = render_spec(CommandModel::PutThisPancakeOnTop(adj));
    assert(line.len() == 25 + adj.len());
    assert(line.len() >= 25);
    assert(line[0] == 'P');
    assert(line[4] == 't');
    assert(line[6] == 'i');
    assert(line.subrange(0, 9) =~= adjective_prefix());
    assert(line.subrange(line.len() - 16, line.len() as int) =~= adjective_suffix());
    assert(forall|i: int| 9 <= i < line.len() - 16 ==> #[trigger] line[i] == adj[i - 9]);
    assert(parses_as_adjective_put(line));
    assert(adjective_of(line) =~= adj);
}

/// Rendering a label definition and parsing the line returns the
/// command, as long as the name is non-empty and free of line feeds.
proof fn lemma_roundtrip_label(name: Seq<char>)
    requires
        name.len() >= 1,
        no_newline_in(name, 0, name.len() as int),
    ensures
        parse_line_spec(render_spec(CommandModel::Label(name))) == Some(CommandModel::Label(name)),
{
    reveal_sentence_literals();
    reveal_marker_literals();
    let line = render_spec(CommandModel::Label(name));
    assert(line.len() == 2 + name.len());
    assert(line[0] == '[');
    assert(line[line.len() - 1] == ']');
    assert(!parses_as_adjective_put(line)) by {
        if parses_as_adjective_put(line) {
            assert(line.subrange(0, adjective_prefix().len() as int)[0] == line[0]);
        }
    }
    assert(forall|i: int| 1 <= i < line.len() - 1 ==> #[trigger] line[i] == name[i - 1]);
    assert(parses_as_label(line));
    assert(label_of(line) =~= name);
}

/// Rendering the tasteless branch and parsing the line returns the
/// command, as long as the target name is free of line feeds.
proof fn lemma_roundtrip_branch_isnt(name: Seq<char>)
    requires
        no_newline_in(name, 0, name.len() as int),
    ensures
        parse_line_spec(render_spec(CommandModel::IfThePancakeIsntTastyGoOverTo(name))) == Some(
            CommandModel::IfThePancakeIsntTastyGoOverTo(name),
        ),
{
    reveal_sentence_literals();
    reveal_marker_literals();
    let line = render_spec(CommandModel::IfThePancakeIsntTastyGoOverTo(name));
    assert(line.len() == 42 + name.len());
    assert(line[0] == 'I');
    assert(!parses_as_adjective_put(line)) by {
        if parses_as_adjective_put(line) {
            assert(line.subrange(0, adjective_prefix().len() as int)[0] == line[0]);
        }
    }
    assert(!parses_as_label(line));
    assert(line.subrange(0, 40) =~= branch_isnt_prefix());
    assert(line.subrange(line.len() - 2, line.len() as int) =~= branch_suffix());
    assert(forall|i: int| 40 <= i < line.len() - 2 ==> #[trigger] line[i] == name[i - 40]);
    assert(parses_as_branch(line, branch_isnt_prefix()));
    assert(branch_target_of(line, branch_isnt_prefix()) =~= name);
}

/// Rendering the tasty branch and parsing the line returns the
/// command, as long as the target name is free of line feeds.
proof fn lemma_roundtrip_branch_is(name: Seq<char>)
    requires
        no_newline_in(name, 0, name.len() as int),
    ensures
        parse_line_spec(render_spec(CommandModel::IfThePancakeIsTastyGoOverTo(name))) == Some(
            CommandModel::IfThePancakeIsTastyGoOverTo(name),
        ),
{
    reveal_sentence_literals();
    reveal_marker_literals();
    let line = render_spec(CommandModel::IfThePancakeIsTastyGoOverTo(name));
    assert(line.len() == 39 + name.len());
    assert(line[0] == 'I');
    assert(line[17] == ' ');
    assert(!parses_as_adjective_put(line)) by {
        if parses_as_adjective_put(line) {
            assert(line.subrange(0, adjective_prefix().len() as int)[0] == line[0]);
        }
    }
    assert(!parses_as_label(line));
    assert(!parses_as_branch(line, branch_isnt_prefix())) by {
        if parses_as_branch(line, branch_isnt_prefix()) {
            assert(line.subrange(0, branch_isnt_prefix().len() as int)[17] == line[17]);
        }
    }
    assert(line.subrange(0, 37) =~= branch_is_prefix());
    assert(line.subrange(line.len() - 2, line.len() as int) =~= branch_suffix());
    assert(forall|i: int| 37 <= i < line.len() - 2 ==> #[trigger] line[i] == name[i - 37]);
    assert(parses_as_branch(line, branch_is_prefix()));
    assert(branch_target_of(line, branch_is_prefix()) =~= name);
}

/// Parsing inverts rendering: for every renderable command, the line
/// it renders to parses back to the command itself.
pub proof fn lemma_parse_render_roundtrip(c: CommandModel)
    requires
        renderable(c),
    ensures
        parse_line_spec(render_spec(c)) == Some(c),
{
    match c {
        CommandModel::PutThisPancakeOnTop(adj) => lemma_roundtrip_adjective(adj),
        CommandModel::Label(name) => lemma_roundtrip_label(name),
        CommandModel::IfThePancakeIsntTastyGoOverTo(name) => lemma_roundtrip_branch_isnt(name),
        CommandModel::IfThePancakeIsTastyGoOverTo(name) => lemma_roundtrip_branch_is(name),
        _ => {
            lemma_roundtrip_marker(c);
        },
    }
}

/// Running `a` steps and then `b` steps is running `a + b` steps.
pub proof fn lemma_run_steps_compose(
    prog: Seq<CommandModel>,
    input: Seq<u8>,
    s: StateModel,
    s1: StateModel,
    a: nat,
    b: nat,
)
    requires
        run_steps(prog, input, s, a) == RunModel::Running(s1),
    ensures
        run_steps(prog, input, s, a + b) == run_steps(prog, input, s1, b),
    decreases b,
{
    if b > 0 {
        lemma_run_steps_compose(prog, input, s, s1, a, (b - 1) as nat);
        assert(a + b - 1 == a + ((b - 1) as nat));
    }
}

/// Every address the label table holds points at the line that defined
/// it: label resolution is lazy, so a name is in the table exactly
/// because its label line has executed, and the address it maps to is
/// that line's own.
pub open spec fn labels_trace_program(prog: Seq<CommandModel>, s: StateModel) -> bool {
    forall|name: Seq<char>| #[trigger] s.machine.labels.contains_key(name) ==> {
        &&& s.machine.labels[name] < prog.len()
        &&& prog[s.machine.labels[name] as int] == CommandModel::Label(name)
    }
}

/// In every state a run reaches, the label table records only labels
/// whose defining line has executed, each at its own address.
pub proof fn lemma_labels_point_at_their_lines(prog: Seq<CommandModel>, input: Seq<u8>, n: nat)
    requires
        run_steps(prog, input, init_state(), n) is Running,
    ensures
        labels_trace_program(prog, run_steps(prog, input, init_state(), n)->Running_0),
    decreases n,
{
    if n > 0 {
        match run_steps(prog, input, init_state(), (n - 1) as nat) {
            RunModel::Running(s1) => {
                lemma_labels_point_at_their_lines(prog, input, (n - 1) as nat);
            },
            _ => {},
        }
    }
}

/// Executing a label line records the label under the line's own
/// address, so a later jump to it re-enters the program at that line.
pub proof fn lemma_label_defines(
    prog: Seq<CommandModel>,
    input: Seq<u8>,
    s: StateModel,
    name: Seq<char>,
)
    requires
        s.pc < prog.len(),
        prog[s.pc as int] == CommandModel::Label(name),
        s.machine.stack.len() > 0,
    ensures
        step(prog, input, s) == RunModel::Running(
            StateModel {
                machine: MachineModel {
                    labels: s.machine.labels.insert(name, s.pc),
                    ..s.machine
                },
                pc: (s.pc + 1) as usize,
                ..s
            },
        ),
{
}

/// A taken conditional branch goes through the label table: a target
/// already defined moves the program counter to the recorded address,
/// and a target whose label line has not executed yet fails the run
/// with `UndefinedLabel`.
pub proof fn lemma_branch_follows_label(
    prog: Seq<CommandModel>,
    input: Seq<u8>,
    s: StateModel,
    name: Seq<char>,
    tasty: bool,
)
    requires
        s.pc < prog.len(),
        prog[s.pc as int] == (if tasty {
            CommandModel::IfThePancakeIsTastyGoOverTo(name)
        } else {
            CommandModel::IfThePancakeIsntTastyGoOverTo(name)
        }),
        s.machine.stack.len() > 0,
        (s.machine.stack.last() != 0) == tasty,
    ensures
        s.machine.labels.contains_key(name) ==> step(prog, input, s) == RunModel::Running(
            StateModel { pc: s.machine.labels[name], ..s },
        ),
        !s.machine.labels.contains_key(name) ==> step(prog, input, s) == RunModel::Failed(
            ErrorModel::UndefinedLabel(name),
            s.output,
        ),
{
}

/// A program that copies its input: prime the stack, then loop reading
/// one raw byte, showing it, and jumping back while the byte is not the
/// zero sentinel.
pub open spec fn cat_program() -> Seq<CommandModel> {
    seq![
        CommandModel::PutThisPancakeOnTop("plain"@),
        CommandModel::Label("loop"@),
        CommandModel::EatThePancakeOnTop,
        CommandModel::HowAboutAHotcake,
        CommandModel::ShowMeAPancake,
        CommandModel::IfThePancakeIsTastyGoOverTo("loop"@),
    ]
}

/// The UTF-8 transcoding of the first `i` input bytes, each byte read
/// as a Unicode scalar value, as the cat loop shows them.
pub open spec fn scalars_encoded(input: Seq<u8>, i: int) -> Seq<u8>
    decreases i,
{
    if i <= 0 {
        seq![]
    } else {
        scalars_encoded(input, i - 1) + encode_scalar(input[i - 1] as u32)
    }
}

/// Bytes below 0x80 are their own one-byte encodings, so the
/// transcoding of an ASCII prefix is the prefix itself.
proof fn lemma_scalars_encoded_ascii(input: Seq<u8>, i: int)
    requires
        0 <= i <= input.len(),
        forall|k: int| 0 <= k < i ==> #[trigger] input[k] < 0x80,
    ensures
        scalars_encoded(input, i) == input.subrange(0, i),
    decreases i,
{
    if i > 0 {
        lemma_scalars_encoded_ascii(input, i - 1);
        let byte = input[i - 1];
        let scalar = byte as u32;
        assert((scalar & 0x7f) == scalar) by (bit_vector)
            requires
                scalar < 0x80,
        ;
        assert(encode_scalar(scalar) =~= seq![byte]);
        assert(scalars_encoded(input, i) =~= input.subrange(0, i));
    } else {
        assert(scalars_encoded(input, 0) =~= input.subrange(0, 0));
    }
}

/// One pass of the cat loop, from the state just past the label line
/// with `i` input bytes already shown, runs the program to completion
/// with every input byte shown.
proof fn lemma_cat_loop(input: Seq<u8>, i: int, s: StateModel)
    requires
        input.len() <= usize::MAX,
        0 <= i < input.len(),
        input[input.len() - 1] == 0,
        forall|k: int| 0 <= k < input.len() - 1 ==> #[trigger] input[k] != 0,
        s.pc == 2,
        s.input_at == i,
        s.machine.stack.len() == 1,
        s.machine.labels == Map::<Seq<char>, usize>::empty().insert("loop"@, 1usize),
        s.output == scalars_encoded(input, i),
    ensures
        exists|n: nat|
            #[trigger] run_steps(cat_program(), input, s, n) == RunModel::Finished(
                scalars_encoded(input, input.len() as int),
            ),
    decreases input.len() - i,
{
    let prog = cat_program();
    let done = scalars_encoded(input, input.len() as int);
    let byte = input[i];
    let scalar = byte as u32;
    let s_eat = StateModel {
        machine: MachineModel { stack: s.machine.stack.drop_last(), ..s.machine },
        pc: 3,
        ..s
    };
    assert(step(prog, input, s) == RunModel::Running(s_eat));
    let s_hot = StateModel {
        machine: MachineModel { stack: s_eat.machine.stack.push(scalar), ..s_eat.machine },
        pc: 4,
        input_at: (i + 1) as usize,
        ..s_eat
    };
    assert(step(prog, input, s_eat) == RunModel::Running(s_hot));
    assert(is_scalar(scalar));
    let s_show = StateModel {
        output: s_hot.output + encode_scalar(scalar),
        pc: 5,
        ..s_hot
    };
    assert(step(prog, input, s_hot) == RunModel::Running(s_show));
    assert(s_show.output == scalars_encoded(input, i + 1));
    assert(run_steps(prog, input, s, 0) == RunModel::Running(s));
    assert(run_steps(prog, input, s, 1) == RunModel::Running(s_eat));
    assert(run_steps(prog, input, s, 2) == RunModel::Running(s_hot));
    assert(run_steps(prog, input, s, 3) == RunModel::Running(s_show));
    if i < input.len() - 1 {
        assert(byte != 0);
        assert(s_show.machine.labels.contains_key("loop"@));
        assert(s_show.machine.labels["loop"@] == 1usize);
        let s_jump = StateModel { pc: 1, ..s_show };
        assert(step(prog, input, s_show) == RunModel::Running(s_jump));
        let s_back = StateModel {
            machine: MachineModel {
                labels: s_jump.machine.labels.insert("loop"@, 1usize),
                ..s_jump.machine
            },
            pc: 2,
            ..s_jump
        };
        assert(step(prog, input, s_jump) == RunModel::Running(s_back));
        assert(run_steps(prog, input, s, 4) == RunModel::Running(s_jump));
        assert(run_steps(prog, input, s, 5) == RunModel::Running(s_back));
        assert(s_back.machine.labels =~= Map::<Seq<char>, usize>::empty().insert(
            "loop"@,
            1usize,
        ));
        lemma_cat_loop(input, i + 1, s_back);
        let n_rest = choose|n: nat|
            #[trigger] run_steps(prog, input, s_back, n) == RunModel::Finished(done);
        lemma_run_steps_compose(prog, input, s, s_back, 5, n_rest);
        assert(run_steps(prog, input, s, 5 + n_rest) == RunModel::Finished(done));
    } else {
        assert(i == input.len() - 1);
        assert(byte == 0);
        let s_done = StateModel { pc: 6, ..s_show };
        assert(step(prog, input, s_show) == RunModel::Running(s_done));
        assert(run_steps(prog, input, s, 4) == RunModel::Running(s_done));
        assert(s_done.output == done);
        assert(step(prog, input, s_done) == RunModel::Finished(done));
        assert(run_steps(prog, input, s, 5) == RunModel::Finished(done));
    }
}

/// A cat-like program shows every input byte up to and including the
/// zero sentinel that ends the input: for every input of non-zero
/// bytes followed by a final zero byte, some number of steps finishes
/// the run with the output equal to the UTF-8 transcoding of the
/// input. For input bytes below 0x80 the transcoding is the bytes
/// themselves; bytes at 0x80 and above leave as two-byte encodings.
pub proof fn lemma_cat_transcodes_input(input: Seq<u8>)
    requires
        input.len() <= usize::MAX,
        input.len() >= 1,
        input[input.len() - 1] == 0,
        forall|k: int| 0 <= k < input.len() - 1 ==> #[trigger] input[k] != 0,
    ensures
        exists|n: nat|
            #[trigger] run_steps(cat_program(), input, init_state(), n) == RunModel::Finished(
                scalars_encoded(input, input.len() as int),
            ),
{
    let prog = cat_program();
    let done = scalars_encoded(input, input.len() as int);
    let s0 = init_state();
    let s_push = StateModel {
        machine: MachineModel {
            stack: s0.machine.stack.push(crate::machine::adjective_weight("plain"@)),
            ..s0.machine
        },
        pc: 1,
        ..s0
    };
    assert(step(prog, input, s0) == RunModel::Running(s_push));
    let s_label = StateModel {
        machine: MachineModel {
            labels: s_push.machine.labels.insert("loop"@, 1usize),
            ..s_push.machine
        },
        pc: 2,
        ..s_push
    };
    assert(step(prog, input, s_push) == RunModel::Running(s_label));
    assert(run_steps(prog, input, s0, 0) == RunModel::Running(s0));
    assert(run_steps(prog, input, s0, 1) == RunModel::Running(s_push));
    assert(run_steps(prog, input, s0, 2) == RunModel::Running(s_label));
    assert(s_label.output =~= scalars_encoded(input, 0));
    assert(s_label.machine.labels =~= Map::<Seq<char>, usize>::empty().insert("loop"@, 1usize));
    lemma_cat_loop(input, 0, s_label);
    let n_rest = choose|n: nat|
        #[trigger] run_steps(prog, input, s_label, n) == RunModel::Finished(done);
    lemma_run_steps_compose(prog, input, s0, s_label, 2, n_rest);
    assert(run_steps(prog, input, s0, 2 + n_rest) == RunModel::Finished(done));
}

/// A cat-like program reproduces its input on its output, byte for
/// byte, including the zero sentinel that ends it: for every input of
/// non-zero bytes below 0x80 followed by a final zero byte, some number
/// of steps finishes the run with the output equal to the input.
pub proof fn lemma_cat_copies_input(input: Seq<u8>)
    requires
        input.len() <= usize::MAX,
        input.len() >= 1,
        input[input.len() - 1] == 0,
        forall|k: int| 0 <= k < input.len() - 1 ==> 0 < #[trigger] input[k] < 0x80,
    ensures
        exists|n: nat|
            #[trigger] run_steps(cat_program(), input, init_state(), n) == RunModel::Finished(
                input,
            ),
{
    lemma_cat_transcodes_input(input);
    lemma_scalars_encoded_ascii(input, input.len() as int);
    assert(input.subrange(0, input.len() as int) =~= input);
    let n = choose|n: nat|
        #[trigger] run_steps(cat_program(), input, init_state(), n) == RunModel::Finished(
            scalars_encoded(input, input.len() as int),
        );
    assert(run_steps(cat_program(), input, init_state(), n) == RunModel::Finished(input));
}

} // verus!
