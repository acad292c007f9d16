//! Execution over a fully parsed program.
//!
//! A run is modelled by the small-step relation [`step`]: one command
//! executed on a [`StateModel`], with the program, the remaining input
//! position, and the output collected so far. [`run_steps`] iterates
//! it; [`run_program`] and [`run_program_str`] are proved to realise
//! exactly the outcome that some number of steps of the model reaches.

use vstd::prelude::*;
use vstd::utf8::encode_scalar;

use crate::machine::{
    spec_branch, spec_butter, spec_define_label, spec_duplicate, spec_eat, spec_flip, spec_give,
    spec_hotcake, spec_push_adjective, spec_put_together, spec_show, spec_syrup, spec_take_from,
    spec_unbutter, spec_unsyrup, Error, ErrorModel, Machine, MachineModel,
};
use crate::parse::{parse_program_spec, parse_program_str, Command, CommandModel};
use crate::text::{encode_char_utf8, find_line_end, line_end};

verus! {

/// The state of a run in flight: the machine, the program counter, the
/// position of the next unread input byte, and the bytes written so
/// far.
pub struct StateModel {
    pub machine: MachineModel,
    pub pc: usize,
    pub input_at: usize,
    pub output: Seq<u8>,
}

/// A run after some number of steps: still running, finished
/// successfully with its output, or failed with an error and the
/// output written before the failure.
pub enum RunModel {
    Running(StateModel),
    Finished(Seq<u8>),
    Failed(ErrorModel, Seq<u8>),
}

/// The state at the start of a run: empty stack, no labels, at the
/// first command and the first input byte, nothing written.
pub open spec fn init_state() -> StateModel {
    StateModel {
        machine: MachineModel { stack: Seq::empty(), labels: Map::empty() },
        pc: 0,
        input_at: 0,
        output: Seq::empty(),
    }
}

/// Lifts a machine transition to a run step: on success the program
/// counter advances by one, on failure the run stops.
pub open spec fn step_machine(r: Result<MachineModel, ErrorModel>, s: StateModel) -> RunModel {
    match r {
        Ok(m2) => RunModel::Running(
            StateModel { machine: m2, pc: (s.pc + 1) as usize, ..s },
        ),
        Err(e) => RunModel::Failed(e, s.output),
    }
}

/// Lifts a branch decision to a run step: a taken branch moves the
/// program counter to the resolved address, an untaken one advances it.
pub open spec fn step_branch(r: Result<Option<usize>, ErrorModel>, s: StateModel) -> RunModel {
    match r {
        Ok(Some(address)) => RunModel::Running(StateModel { pc: address, ..s }),
        Ok(None) => RunModel::Running(StateModel { pc: (s.pc + 1) as usize, ..s }),
        Err(e) => RunModel::Failed(e, s.output),
    }
}

/// One step of a run: the command under the program counter applied to
/// the state. A program counter past the end of the program finishes
/// the run; a label records its own address, so that a jump to it
/// lands on the label line itself.
pub open spec fn step(prog: Seq<CommandModel>, input: Seq<u8>, s: StateModel) -> RunModel {
    if s.pc >= prog.len() {
        RunModel::Finished(s.output)
    } else {
        match prog[s.pc as int] {
            CommandModel::PutThisPancakeOnTop(adj) => RunModel::Running(
                StateModel {
                    machine: spec_push_adjective(s.machine, adj),
                    pc: (s.pc + 1) as usize,
                    ..s
                },
            ),
            CommandModel::EatThePancakeOnTop => step_machine(spec_eat(s.machine), s),
            CommandModel::PutTheTopPancakesTogether => step_machine(
                spec_put_together(s.machine),
                s,
            ),
            CommandModel::GiveMeAPancake => {
                let end = line_end(input, s.input_at as int);
                let line = input.subrange(s.input_at as int, end);
                match spec_give(s.machine, line) {
                    Ok(m2) => RunModel::Running(
                        StateModel {
                            machine: m2,
                            pc: (s.pc + 1) as usize,
                            input_at: end as usize,
                            ..s
                        },
                    ),
                    Err(e) => RunModel::Failed(e, s.output),
                }
            },
            CommandModel::HowAboutAHotcake => {
                if s.input_at < input.len() {
                    RunModel::Running(
                        StateModel {
                            machine: spec_hotcake(s.machine, input[s.input_at as int]),
                            pc: (s.pc + 1) as usize,
                            input_at: (s.input_at + 1) as usize,
                            ..s
                        },
                    )
                } else {
                    RunModel::Running(
                        StateModel {
                            machine: spec_hotcake(s.machine, 0),
                            pc: (s.pc + 1) as usize,
                            ..s
                        },
                    )
                }
            },
            CommandModel::ShowMeAPancake => {
                match spec_show(s.machine) {
                    Ok(v) => RunModel::Running(
                        StateModel {
                            output: s.output + encode_scalar(v),
                            pc: (s.pc + 1) as usize,
                            ..s
                        },
                    ),
                    Err(e) => RunModel::Failed(e, s.output),
                }
            },
            CommandModel::TakeFromTheTopPancakes => step_machine(spec_take_from(s.machine), s),
            CommandModel::FlipThePancakesOnTop => step_machine(spec_flip(s.machine), s),
            CommandModel::PutAnotherPancakeOnTop => step_machine(spec_duplicate(s.machine), s),
            CommandModel::Label(name) => step_machine(
                spec_define_label(s.machine, name, s.pc),
                s,
            ),
            CommandModel::IfThePancakeIsntTastyGoOverTo(name) => step_branch(
                spec_branch(s.machine, name, false),
                s,
            ),
            CommandModel::IfThePancakeIsTastyGoOverTo(name) => step_branch(
                spec_branch(s.machine, name, true),
                s,
            ),
            CommandModel::PutSyrupOnThePancakes => step_machine(spec_syrup(s.machine), s),
            CommandModel::PutButterOnThePancakes => step_machine(spec_butter(s.machine), s),
            CommandModel::TakeOffTheSyrup => step_machine(spec_unsyrup(s.machine), s),
            CommandModel::TakeOffTheButter => step_machine(spec_unbutter(s.machine), s),
            CommandModel::EatAllOfThePancakes => RunModel::Finished(s.output),
        }
    }
}

/// The run after `n` steps from state `s`: stepping stops at the first
/// terminal outcome.
pub open spec fn run_steps(prog: Seq<CommandModel>, input: Seq<u8>, s: StateModel, n: nat) -> RunModel
    decreases n,
{
    if n == 0 {
        RunModel::Running(s)
    } else {
        match run_steps(prog, input, s, (n - 1) as nat) {
            RunModel::Running(s1) => step(prog, input, s1),
            done => done,
        }
    }
}

/// A terminal outcome is final: all later step counts agree on it.
pub proof fn lemma_terminal_stays(
    prog: Seq<CommandModel>,
    input: Seq<u8>,
    s: StateModel,
    n: nat,
    m: nat,
)
    requires
        n <= m,
        !(run_steps(prog, input, s, n) is Running),
    ensures
        run_steps(prog, input, s, m) == run_steps(prog, input, s, n),
    decreases m,
{
    if n < m {
        lemma_terminal_stays(prog, input, s, n, (m - 1) as nat);
    }
}

/// A run reaches at most one terminal outcome: the model determines
/// the result of a terminating run completely.
pub proof fn lemma_run_deterministic(
    prog: Seq<CommandModel>,
    input: Seq<u8>,
    s: StateModel,
    n: nat,
    m: nat,
)
    requires
        !(run_steps(prog, input, s, n) is Running),
        !(run_steps(prog, input, s, m) is Running),
    ensures
        run_steps(prog, input, s, n) == run_steps(prog, input, s, m),
{
    if n <= m {
        lemma_terminal_stays(prog, input, s, n, m);
    } else {
        lemma_terminal_stays(prog, input, s, m, n);
    }
}

/// The terminal outcome that a call returning `r` reports, given the
/// output buffer before and after the call.
pub open spec fn run_outcome(r: Result<(), Error>, out0: Seq<u8>, out1: Seq<u8>) -> RunModel {
    match r {
        Ok(_) => RunModel::Finished(out1.skip(out0.len() as int)),
        Err(e) => RunModel::Failed(e@, out1.skip(out0.len() as int)),
    }
}

/// Runs a parsed program for at most `max_steps` commands. Input is
/// consumed from `input`, one line or one byte at a time; everything
/// the program shows is appended to `output`.
///
/// A program of this language can loop forever, and every verified
/// function here terminates, so the run carries an explicit step
/// budget. `Some` is a terminal result: the step model reaches exactly
/// `Finished` on `Some(Ok)`, or `Failed` with the returned error; on
/// `None` the budget ran out with the model still running, and the
/// bytes of that unfinished run have been written.
pub fn run_program(program: &[Command], input: &[u8], output: &mut Vec<u8>, max_steps: u64) -> (r:
    Option<Result<(), Error>>)
    ensures
        final(output)@.len() >= old(output)@.len(),
        final(output)@.subrange(0, old(output)@.len() as int) == old(output)@,
        match r {
            Some(result) => exists|n: nat|
                #[trigger] run_steps(program.deep_view(), input@, init_state(), n) == run_outcome(
                    result,
                    old(output)@,
                    final(output)@,
                ),
            None => {
                let at_cap = run_steps(program.deep_view(), input@, init_state(), max_steps as nat);
                &&& at_cap is Running
                &&& final(output)@ == old(output)@ + at_cap->Running_0.output
            },
        },
{
    let ghost prog = program.deep_view();
    let mut machine = Machine::new();
    let mut pc: usize = 0;
    let mut in_pos: usize = 0;
    let mut fuel: u64 = max_steps;
    let ghost mut steps: nat = 0;
    let ghost mut st = init_state();
    proof {
        assert(st.machine.stack =~= Seq::<u32>::empty());
        assert(st.machine.labels =~= Map::<Seq<char>, usize>::empty());
        assert(output@ =~= old(output)@ + st.output);
    }
    while pc < program.len()
        invariant
            prog == program.deep_view(),
            prog.len() == program@.len(),
            steps + fuel == max_steps,
            run_steps(prog, input@, init_state(), steps) == RunModel::Running(st),
            st.machine == machine@,
            st.pc == pc,
            st.input_at == in_pos,
            in_pos <= input@.len(),
            output@ == old(output)@ + st.output,
        decreases fuel,
    {
        if fuel == 0 {
            proof {
                lemma_outcome_skip(old(output)@, output@, st.output);
            }
            return None;
        }
        fuel = fuel - 1;
        proof {
            assert(prog[pc as int] == program@[pc as int].deep_view());
        }
        let ghost prev = st;
        let ghost next = step(prog, input@, prev);
        let command: &Command = &program[pc];
        match command {
            Command::PutThisPancakeOnTop(adjective) => {
                machine.push_adjective(adjective.as_str());
                pc = pc + 1;
                proof {
                    st = StateModel { machine: machine@, pc: pc, ..prev };
                    assert(next == RunModel::Running(st));
                }
            },
            Command::EatThePancakeOnTop => {
                match machine.eat_top() {
                    Ok(_) => {
                        pc = pc + 1;
                        proof {
                            st = StateModel { machine: machine@, pc: pc, ..prev };
                            assert(next == RunModel::Running(st));
                        }
                    },
                    Err(e) => {
                        proof {
                            assert(next == RunModel::Failed(e@, prev.output));
                            lemma_step_to_outcome(prog, input@, prev, steps, next);
                            lemma_outcome_skip(old(output)@, output@, prev.output);
                        }
                        return Some(Err(e));
                    },
                }
            },
            Command::PutTheTopPancakesTogether => {
                match machine.put_top_together() {
                    Ok(_) => {
                        pc = pc + 1;
                        proof {
                            st = StateModel { machine: machine@, pc: pc, ..prev };
                            assert(next == RunModel::Running(st));
                        }
                    },
                    Err(e) => {
                        proof {
                            assert(next == RunModel::Failed(e@, prev.output));
                            lemma_step_to_outcome(prog, input@, prev, steps, next);
                            lemma_outcome_skip(old(output)@, output@, prev.output);
                        }
                        return Some(Err(e));
                    },
                }
            },
            Command::GiveMeAPancake => {
                let end: usize = find_line_end(input, in_pos);
                let line: &[u8] = &input[in_pos..end];
                match machine.give_pancake(line) {
                    Ok(_) => {
                        pc = pc + 1;
                        in_pos = end;
                        proof {
                            st = StateModel {
                                machine: machine@,
                                pc: pc,
                                input_at: in_pos,
                                ..prev
                            };
                            assert(next == RunModel::Running(st));
                        }
                    },
                    Err(e) => {
                        proof {
                            assert(next == RunModel::Failed(e@, prev.output));
                            lemma_step_to_outcome(prog, input@, prev, steps, next);
                            lemma_outcome_skip(old(output)@, output@, prev.output);
                        }
                        return Some(Err(e));
                    },
                }
            },
            Command::HowAboutAHotcake => {
                let byte: u8 = if in_pos < input.len() {
                    let b: u8 = input[in_pos];
                    in_pos = in_pos + 1;
                    b
                } else {
                    0
                };
                machine.take_hotcake(byte);
                pc = pc + 1;
                proof {
                    st = StateModel { machine: machine@, pc: pc, input_at: in_pos, ..prev };
                    assert(next == RunModel::Running(st));
                }
            },
            Command::ShowMeAPancake => {
                match machine.show_top() {
                    Ok(c) => {
                        encode_char_utf8(c, output);
                        pc = pc + 1;
                        proof {
                            st = StateModel {
                                output: prev.output + encode_scalar(c as u32),
                                pc: pc,
                                ..prev
                            };
                            assert(next == RunModel::Running(st));
                            assert(output@ =~= old(output)@ + st.output);
                        }
                    },
                    Err(e) => {
                        proof {
                            assert(next == RunModel::Failed(e@, prev.output));
                            lemma_step_to_outcome(prog, input@, prev, steps, next);
                            lemma_outcome_skip(old(output)@, output@, prev.output);
                        }
                        return Some(Err(e));
                    },
                }
            },
            Command::TakeFromTheTopPancakes => {
                match machine.take_from_top() {
                    Ok(_) => {
                        pc = pc + 1;
                        proof {
                            st = StateModel { machine: machine@, pc: pc, ..prev };
                            assert(next == RunModel::Running(st));
                        }
                    },
                    Err(e) => {
                        proof {
                            assert(next == RunModel::Failed(e@, prev.output));
                            lemma_step_to_outcome(prog, input@, prev, steps, next);
                            lemma_outcome_skip(old(output)@, output@, prev.output);
                        }
                        return Some(Err(e));
                    },
                }
            },
            Command::FlipThePancakesOnTop => {
                match machine.flip_top() {
                    Ok(_) => {
                        pc = pc + 1;
                        proof {
                            st = StateModel { machine: machine@, pc: pc, ..prev };
                            assert(next == RunModel::Running(st));
                        }
                    },
                    Err(e) => {
                        proof {
                            assert(next == RunModel::Failed(e@, prev.output));
                            lemma_step_to_outcome(prog, input@, prev, steps, next);
                            lemma_outcome_skip(old(output)@, output@, prev.output);
                        }
                        return Some(Err(e));
                    },
                }
            },
            Command::PutAnotherPancakeOnTop => {
                match machine.duplicate_top() {
                    Ok(_) => {
                        pc = pc + 1;
                        proof {
                            st = StateModel { machine: machine@, pc: pc, ..prev };
                            assert(next == RunModel::Running(st));
                        }
                    },
                    Err(e) => {
                        proof {
                            assert(next == RunModel::Failed(e@, prev.output));
                            lemma_step_to_outcome(prog, input@, prev, steps, next);
                            lemma_outcome_skip(old(output)@, output@, prev.output);
                        }
                        return Some(Err(e));
                    },
                }
            },
            Command::Label(name) => {
                match machine.define_label(name.as_str(), pc) {
                    Ok(_) => {
                        pc = pc + 1;
                        proof {
                            st = StateModel { machine: machine@, pc: pc, ..prev };
                            assert(next == RunModel::Running(st));
                        }
                    },
                    Err(e) => {
                        proof {
                            assert(next == RunModel::Failed(e@, prev.output));
                            lemma_step_to_outcome(prog, input@, prev, steps, next);
                            lemma_outcome_skip(old(output)@, output@, prev.output);
                        }
                        return Some(Err(e));
                    },
                }
            },
            Command::IfThePancakeIsntTastyGoOverTo(name) => {
                match machine.branch_target(name.as_str(), false) {
                    Ok(Some(address)) => {
                        pc = address;
                        proof {
                            st = StateModel { pc: pc, ..prev };
                            assert(next == RunModel::Running(st));
                        }
                    },
                    Ok(None) => {
                        pc = pc + 1;
                        proof {
                            st = StateModel { pc: pc, ..prev };
                            assert(next == RunModel::Running(st));
                        }
                    },
                    Err(e) => {
                        proof {
                            assert(next == RunModel::Failed(e@, prev.output));
                            lemma_step_to_outcome(prog, input@, prev, steps, next);
                            lemma_outcome_skip(old(output)@, output@, prev.output);
                        }
                        return Some(Err(e));
                    },
                }
            },
            Command::IfThePancakeIsTastyGoOverTo(name) => {
                match machine.branch_target(name.as_str(), true) {
                    Ok(Some(address)) => {
                        pc = address;
                        proof {
                            st = StateModel { pc: pc, ..prev };
                            assert(next == RunModel::Running(st));
                        }
                    },
                    Ok(None) => {
                        pc = pc + 1;
                        proof {
                            st = StateModel { pc: pc, ..prev };
                            assert(next == RunModel::Running(st));
                        }
                    },
                    Err(e) => {
                        proof {
                            assert(next == RunModel::Failed(e@, prev.output));
                            lemma_step_to_outcome(prog, input@, prev, steps, next);
                            lemma_outcome_skip(old(output)@, output@, prev.output);
                        }
                        return Some(Err(e));
                    },
                }
            },
            Command::PutSyrupOnThePancakes => {
                match machine.add_syrup() {
                    Ok(_) => {
                        pc = pc + 1;
                        proof {
                            st = StateModel { machine: machine@, pc: pc, ..prev };
                            assert(next == RunModel::Running(st));
                        }
                    },
                    Err(e) => {
                        proof {
                            assert(next == RunModel::Failed(e@, prev.output));
                            lemma_step_to_outcome(prog, input@, prev, steps, next);
                            lemma_outcome_skip(old(output)@, output@, prev.output);
                        }
                        return Some(Err(e));
                    },
                }
            },
            Command::PutButterOnThePancakes => {
                match machine.add_butter() {
                    Ok(_) => {
                        pc = pc + 1;
                        proof {
                            st = StateModel { machine: machine@, pc: pc, ..prev };
                            assert(next == RunModel::Running(st));
                        }
                    },
                    Err(e) => {
                        proof {
                            assert(next == RunModel::Failed(e@, prev.output));
                            lemma_step_to_outcome(prog, input@, prev, steps, next);
                            lemma_outcome_skip(old(output)@, output@, prev.output);
                        }
                        return Some(Err(e));
                    },
                }
            },
            Command::TakeOffTheSyrup => {
                match machine.remove_syrup() {
                    Ok(_) => {
                        pc = pc + 1;
                        proof {
                            st = StateModel { machine: machine@, pc: pc, ..prev };
                            assert(next == RunModel::Running(st));
                        }
                    },
                    Err(e) => {
                        proof {
                            assert(next == RunModel::Failed(e@, prev.output));
                            lemma_step_to_outcome(prog, input@, prev, steps, next);
                            lemma_outcome_skip(old(output)@, output@, prev.output);
                        }
                        return Some(Err(e));
                    },
                }
            },
            Command::TakeOffTheButter => {
                match machine.remove_butter() {
                    Ok(_) => {
                        pc = pc + 1;
                        proof {
                            st = StateModel { machine: machine@, pc: pc, ..prev };
                            assert(next == RunModel::Running(st));
                        }
                    },
                    Err(e) => {
                        proof {
                            assert(next == RunModel::Failed(e@, prev.output));
                            lemma_step_to_outcome(prog, input@, prev, steps, next);
                            lemma_outcome_skip(old(output)@, output@, prev.output);
                        }
                        return Some(Err(e));
                    },
                }
            },
            Command::EatAllOfThePancakes => {
                proof {
                    assert(next == RunModel::Finished(prev.output));
                    lemma_step_to_outcome(prog, input@, prev, steps, next);
                    lemma_outcome_skip(old(output)@, output@, prev.output);
                }
                return Some(Ok(()));
            },
        }
        proof {
            steps = (steps + 1) as nat;
        }
    }
    proof {
        assert(step(prog, input@, st) == RunModel::Finished(st.output));
        lemma_step_to_outcome(prog, input@, st, steps, RunModel::Finished(st.output));
        lemma_outcome_skip(old(output)@, output@, st.output);
    }
    Some(Ok(()))
}

/// An output buffer grown by appending decomposes into its old prefix
/// and the appended tail.
proof fn lemma_outcome_skip(out_old: Seq<u8>, out_new: Seq<u8>, tail: Seq<u8>)
    requires
        out_new == out_old + tail,
    ensures
        out_new.skip(out_old.len() as int) == tail,
        out_new.subrange(0, out_old.len() as int) == out_old,
        out_new.len() >= out_old.len(),
{
    assert(out_new.skip(out_old.len() as int) =~= tail);
    assert(out_new.subrange(0, out_old.len() as int) =~= out_old);
}

/// From a running prefix of `n` steps whose next step is terminal, the
/// run of `n + 1` steps is that terminal outcome.
proof fn lemma_step_to_outcome(
    prog: Seq<CommandModel>,
    input: Seq<u8>,
    s: StateModel,
    n: nat,
    outcome: RunModel,
)
    requires
        run_steps(prog, input, init_state(), n) == RunModel::Running(s),
        step(prog, input, s) == outcome,
    ensures
        run_steps(prog, input, init_state(), n + 1) == outcome,
{
}

/// Parses and runs a program given as text: the commands executed are
/// exactly `parse_program_spec` of the text, with unparseable lines
/// skipped, and the run is that of [`run_program`], under the same
/// step budget.
pub fn run_program_str(program: &str, input: &[u8], output: &mut Vec<u8>, max_steps: u64) -> (r:
    Option<Result<(), Error>>)
    ensures
        final(output)@.len() >= old(output)@.len(),
        final(output)@.subrange(0, old(output)@.len() as int) == old(output)@,
        match r {
            Some(result) => exists|n: nat|
                #[trigger] run_steps(parse_program_spec(program@), input@, init_state(), n)
                    == run_outcome(result, old(output)@, final(output)@),
            None => {
                let at_cap = run_steps(
                    parse_program_spec(program@),
                    input@,
                    init_state(),
                    max_steps as nat,
                );
                &&& at_cap is Running
                &&& final(output)@ == old(output)@ + at_cap->Running_0.output
            },
        },
{
    let commands: Vec<Command> = parse_program_str(program);
    let slice: &[Command] = commands.as_slice();
    proof {
        assert(slice.deep_view() =~= parse_program_spec(program@));
    }
    run_program(slice, input, output, max_steps)
}

} // verus!
