//! Lazy, line-by-line execution.
//!
//! A [`StreamEngine`] discovers its program one line at a time and
//! caches every parsed command, so a backward jump replays cached
//! commands instead of re-reading the source; a previously read line
//! never changes. The engine asks its driver for work through
//! [`StreamEngine::next_request`]: the next program line, one line or
//! one byte of input, or nothing. Every transition is the same
//! [`step`] that batch execution takes, so the two modes agree.

use vstd::prelude::*;
use vstd::utf8::encode_scalar;

use crate::interpret::{step, RunModel, StateModel};
use crate::machine::{
    decremented_up_to, first_at, incremented_up_to, spec_give, spec_hotcake, Error, Machine,
    MachineModel,
};
use crate::parse::{parse_line_spec, Command, CommandModel};

verus! {

/// What a stream engine needs next from its driver.
pub enum StreamNeed {
    /// The program counter is past every cached command: feed the next
    /// program line, or end the run if the source is exhausted.
    ProgramLine,
    /// The next command reads one line of textual input.
    InputLine,
    /// The next command reads one raw input byte.
    InputByte,
    /// The next command runs without input.
    Step,
}

/// What one input-free step did.
pub enum StreamEvent {
    /// A command ran; execution goes on.
    Advanced,
    /// A command asked to show a character: write it to the output.
    Output(char),
    /// Execution halted successfully before the end of the program.
    Halted,
}

/// The mathematical model of a stream engine: the cached program, the
/// machine, and the program counter.
pub struct StreamModel {
    pub program: Seq<CommandModel>,
    pub machine: MachineModel,
    pub pc: usize,
}

/// An engine that executes a program discovered line by line.
pub struct StreamEngine {
    machine: Machine,
    program: Vec<Command>,
    pc: usize,
}

impl View for StreamEngine {
    type V = StreamModel;

    closed spec fn view(&self) -> StreamModel {
        StreamModel { program: self.program.deep_view(), machine: self.machine@, pc: self.pc }
    }
}

/// The batch-model state that corresponds to a stream engine, with the
/// input and output components at a fresh reference point.
pub open spec fn stream_state(s: StreamModel) -> StateModel {
    StateModel { machine: s.machine, pc: s.pc, input_at: 0, output: Seq::empty() }
}

/// The need implied by a stream model.
pub open spec fn spec_stream_need(s: StreamModel) -> StreamNeed {
    if s.pc >= s.program.len() {
        StreamNeed::ProgramLine
    } else if s.program[s.pc as int] is GiveMeAPancake {
        StreamNeed::InputLine
    } else if s.program[s.pc as int] is HowAboutAHotcake {
        StreamNeed::InputByte
    } else {
        StreamNeed::Step
    }
}

/// The machine state left behind by a failing command: the adding and
/// subtracting commands have consumed their operands or reworked the
/// pancakes below the first one they could not rework; every other
/// command leaves the machine as it was.
pub open spec fn machine_after_failure(cmd: CommandModel, m: MachineModel) -> MachineModel {
    match cmd {
        CommandModel::PutTheTopPancakesTogether | CommandModel::TakeFromTheTopPancakes => {
            if m.stack.len() >= 2 {
                MachineModel { stack: m.stack.drop_last().drop_last(), ..m }
            } else {
                m
            }
        },
        CommandModel::PutSyrupOnThePancakes => MachineModel {
            stack: incremented_up_to(m.stack, first_at(m.stack, u32::MAX)),
            ..m
        },
        CommandModel::TakeOffTheSyrup => MachineModel {
            stack: decremented_up_to(m.stack, first_at(m.stack, 0)),
            ..m
        },
        _ => m,
    }
}

impl StreamEngine {
    /// An engine with no program cached yet.
    pub fn new() -> (e: StreamEngine)
        ensures
            e@.program == Seq::<CommandModel>::empty(),
            e@.machine.stack == Seq::<u32>::empty(),
            e@.machine.labels == Map::<Seq<char>, usize>::empty(),
            e@.pc == 0,
    {
        let e = StreamEngine { machine: Machine::new(), program: Vec::new(), pc: 0 };
        proof {
            assert(e@.program =~= Seq::<CommandModel>::empty());
        }
        e
    }

    /// An engine over an already parsed program, for driving a batch
    /// program against streamed input and output.
    pub fn from_commands(program: Vec<Command>) -> (e: StreamEngine)
        ensures
            e@.program == program.deep_view(),
            e@.machine.stack == Seq::<u32>::empty(),
            e@.machine.labels == Map::<Seq<char>, usize>::empty(),
            e@.pc == 0,
    {
        let e = StreamEngine { machine: Machine::new(), program, pc: 0 };
        proof {
            assert(e@.program =~= e.program.deep_view());
        }
        e
    }

    /// What the engine needs next.
    pub fn next_need(&self) -> (r: StreamNeed)
        ensures
            r == spec_stream_need(self@),
    {
        if self.pc >= self.program.len() {
            return StreamNeed::ProgramLine;
        }
        proof {
            assert(self@.program[self.pc as int] == self.program@[self.pc as int].deep_view());
        }
        match &self.program[self.pc] {
            Command::GiveMeAPancake => StreamNeed::InputLine,
            Command::HowAboutAHotcake => StreamNeed::InputByte,
            _ => StreamNeed::Step,
        }
    }

    /// Feeds the next program line, its terminator already stripped.
    /// A line the grammar accepts is cached at the end of the program;
    /// any other line is skipped and reported by the return value.
    pub fn push_line(&mut self, line: &str) -> (parsed: bool)
        ensures
            final(self)@.machine == old(self)@.machine,
            final(self)@.pc == old(self)@.pc,
            match parse_line_spec(line@) {
                Some(c) => parsed && final(self)@.program == old(self)@.program.push(c),
                None => !parsed && final(self)@.program == old(self)@.program,
            },
    {
        let ghost prev = self.program.deep_view();
        match Command::from_line(line) {
            Ok(c) => {
                let ghost cv = c@;
                self.program.push(c);
                proof {
                    assert(self.program.deep_view() =~= prev.push(cv));
                }
                true
            },
            Err(_) => false,
        }
    }

    /// Runs the next command, which must need no input. The event says
    /// whether execution goes on, what character to write, or that the
    /// program halted; the transition is one [`step`] of the model.
    pub fn step_basic(&mut self) -> (r: Result<StreamEvent, Error>)
        requires
            spec_stream_need(old(self)@) == StreamNeed::Step,
        ensures
            final(self)@.program == old(self)@.program,
            ({
                let outcome = step(
                    old(self)@.program,
                    Seq::empty(),
                    stream_state(old(self)@),
                );
                match outcome {
                    RunModel::Running(s1) => {
                        &&& final(self)@.machine == s1.machine
                        &&& final(self)@.pc == s1.pc
                        &&& r matches Ok(ev) && (match ev {
                            StreamEvent::Advanced => s1.output.len() == 0,
                            StreamEvent::Output(c) => s1.output == encode_scalar(c as u32),
                            StreamEvent::Halted => false,
                        })
                    },
                    RunModel::Finished(_) => {
                        &&& r matches Ok(ev) && ev is Halted
                        &&& final(self)@ == old(self)@
                    },
                    RunModel::Failed(e, _) => {
                        &&& r matches Err(er) && er@ == e
                        &&& final(self)@.pc == old(self)@.pc
                        &&& final(self)@.machine == machine_after_failure(
                            old(self)@.program[old(self)@.pc as int],
                            old(self)@.machine,
                        )
                    },
                }
            }),
    {
        let count: usize = self.program.len();
        assert(self.pc < count);
        proof {
            assert(self@.program[self.pc as int] == self.program@[self.pc as int].deep_view());
        }
        match &self.program[self.pc] {
            Command::PutThisPancakeOnTop(adjective) => {
                self.machine.push_adjective(adjective.as_str());
                self.pc = self.pc + 1;
                Ok(StreamEvent::Advanced)
            },
            Command::EatThePancakeOnTop => {
                match self.machine.eat_top() {
                    Ok(_) => {
                        self.pc = self.pc + 1;
                        Ok(StreamEvent::Advanced)
                    },
                    Err(e) => Err(e),
                }
            },
            Command::PutTheTopPancakesTogether => {
                match self.machine.put_top_together() {
                    Ok(_) => {
                        self.pc = self.pc + 1;
                        Ok(StreamEvent::Advanced)
                    },
                    Err(e) => Err(e),
                }
            },
            Command::GiveMeAPancake => {
                proof {
                    assert(false);
                }
                Err(Error::OutOfPancakes)
            },
            Command::HowAboutAHotcake => {
                proof {
                    assert(false);
                }
                Err(Error::OutOfPancakes)
            },
            Command::ShowMeAPancake => {
                match self.machine.show_top() {
                    Ok(c) => {
                        self.pc = self.pc + 1;
                        proof {
                            assert(Seq::<u8>::empty() + encode_scalar(c as u32) =~= encode_scalar(
                                c as u32,
                            ));
                        }
                        Ok(StreamEvent::Output(c))
                    },
                    Err(e) => Err(e),
                }
            },
            Command::TakeFromTheTopPancakes => {
                match self.machine.take_from_top() {
                    Ok(_) => {
                        self.pc = self.pc + 1;
                        Ok(StreamEvent::Advanced)
                    },
                    Err(e) => Err(e),
                }
            },
            Command::FlipThePancakesOnTop => {
                match self.machine.flip_top() {
                    Ok(_) => {
                        self.pc = self.pc + 1;
                        Ok(StreamEvent::Advanced)
                    },
                    Err(e) => Err(e),
                }
            },
            Command::PutAnotherPancakeOnTop => {
                match self.machine.duplicate_top() {
                    Ok(_) => {
                        self.pc = self.pc + 1;
                        Ok(StreamEvent::Advanced)
                    },
                    Err(e) => Err(e),
                }
            },
            Command::Label(name) => {
                match self.machine.define_label(name.as_str(), self.pc) {
                    Ok(_) => {
                        self.pc = self.pc + 1;
                        Ok(StreamEvent::Advanced)
                    },
                    Err(e) => Err(e),
                }
            },
            Command::IfThePancakeIsntTastyGoOverTo(name) => {
                match self.machine.branch_target(name.as_str(), false) {
                    Ok(Some(address)) => {
                        self.pc = address;
                        Ok(StreamEvent::Advanced)
                    },
                    Ok(None) => {
                        self.pc = self.pc + 1;
                        Ok(StreamEvent::Advanced)
                    },
                    Err(e) => Err(e),
                }
            },
            Command::IfThePancakeIsTastyGoOverTo(name) => {
                match self.machine.branch_target(name.as_str(), true) {
                    Ok(Some(address)) => {
                        self.pc = address;
                        Ok(StreamEvent::Advanced)
                    },
                    Ok(None) => {
                        self.pc = self.pc + 1;
                        Ok(StreamEvent::Advanced)
                    },
                    Err(e) => Err(e),
                }
            },
            Command::PutSyrupOnThePancakes => {
                match self.machine.add_syrup() {
                    Ok(_) => {
                        self.pc = self.pc + 1;
                        Ok(StreamEvent::Advanced)
                    },
                    Err(e) => Err(e),
                }
            },
            Command::PutButterOnThePancakes => {
                match self.machine.add_butter() {
                    Ok(_) => {
                        self.pc = self.pc + 1;
                        Ok(StreamEvent::Advanced)
                    },
                    Err(e) => Err(e),
                }
            },
            Command::TakeOffTheSyrup => {
                match self.machine.remove_syrup() {
                    Ok(_) => {
                        self.pc = self.pc + 1;
                        Ok(StreamEvent::Advanced)
                    },
                    Err(e) => Err(e),
                }
            },
            Command::TakeOffTheButter => {
                match self.machine.remove_butter() {
                    Ok(_) => {
                        self.pc = self.pc + 1;
                        Ok(StreamEvent::Advanced)
                    },
                    Err(e) => Err(e),
                }
            },
            Command::EatAllOfThePancakes => Ok(StreamEvent::Halted),
        }
    }

    /// Runs a `GiveMeAPancake` command on the input line the driver
    /// read, handed over with its terminator still attached; the
    /// engine strips the terminator before parsing.
    pub fn step_input_line(&mut self, line: &[u8]) -> (r: Result<(), Error>)
        requires
            spec_stream_need(old(self)@) == StreamNeed::InputLine,
        ensures
            final(self)@.program == old(self)@.program,
            match spec_give(old(self)@.machine, line@) {
                Ok(m2) => {
                    &&& r is Ok
                    &&& final(self)@.machine == m2
                    &&& final(self)@.pc == old(self)@.pc + 1
                },
                Err(e) => (r matches Err(er) && er@ == e) && final(self)@ == old(self)@,
            },
    {
        let count: usize = self.program.len();
        assert(self.pc < count);
        match self.machine.give_pancake(line) {
            Ok(_) => {
                self.pc = self.pc + 1;
                Ok(())
            },
            Err(e) => Err(e),
        }
    }

    /// Runs a `HowAboutAHotcake` command on the raw byte the driver
    /// read; a driver whose input is exhausted hands in zero.
    pub fn step_input_byte(&mut self, byte: u8)
        requires
            spec_stream_need(old(self)@) == StreamNeed::InputByte,
        ensures
            final(self)@.program == old(self)@.program,
            final(self)@.machine == spec_hotcake(old(self)@.machine, byte),
            final(self)@.pc == old(self)@.pc + 1,
    {
        let count: usize = self.program.len();
        assert(self.pc < count);
        self.machine.take_hotcake(byte);
        self.pc = self.pc + 1;
    }
}

} // verus!
