//! The stack machine: a stack of unsigned 32-bit pancakes and a table
//! of labels resolved lazily at execution time. Each command's effect
//! is given by a specification-level transition on [`MachineModel`]
//! and implemented by one method of [`Machine`].

use vstd::prelude::*;
use vstd::utf8::is_scalar;

use crate::text::{
    dec_chars_of, is_u32_literal, parse_u32_decimal, str_eq, strip_line_terminator,
    u32_literal_value, u32_to_decimal,
};
use crate::unicode::{grapheme_count, grapheme_count_of, lossy_decode_of, lossy_string};

verus! {

#[verifier::external_type_specification]
#[verifier::external_body]
pub struct ExIoError(std::io::Error);

/// An error that aborts a run. Every variant but `Io` is produced by
/// the machine itself; `Io` is reserved for callers whose input or
/// output streams fail.
#[derive(Debug)]
pub enum Error {
    /// An operation needed more pancakes than the stack holds.
    OutOfPancakes,
    /// Textual input could not be parsed as an unsigned 32-bit number.
    InvalidPancake(String),
    /// The top of the stack is not a Unicode scalar value.
    CanNotShowPancake(u32),
    /// A branch targeted a label that has not been defined yet.
    UndefinedLabel(String),
    /// Checked arithmetic would fall below zero.
    PancakeUnderflow,
    /// Checked arithmetic would exceed the 32-bit range.
    PancakeOverflow,
    /// An input or output stream failed.
    Io(std::io::Error),
}

/// The mathematical model of an [`Error`]: text payloads are character
/// sequences, and the stream error carries no payload.
pub enum ErrorModel {
    OutOfPancakes,
    InvalidPancake(Seq<char>),
    CanNotShowPancake(u32),
    UndefinedLabel(Seq<char>),
    PancakeUnderflow,
    PancakeOverflow,
    Io,
}

impl View for Error {
    type V = ErrorModel;

    open spec fn view(&self) -> ErrorModel {
        match self {
            Error::OutOfPancakes => ErrorModel::OutOfPancakes,
            Error::InvalidPancake(s) => ErrorModel::InvalidPancake(s@),
            Error::CanNotShowPancake(v) => ErrorModel::CanNotShowPancake(*v),
            Error::UndefinedLabel(s) => ErrorModel::UndefinedLabel(s@),
            Error::PancakeUnderflow => ErrorModel::PancakeUnderflow,
            Error::PancakeOverflow => ErrorModel::PancakeOverflow,
            Error::Io(_) => ErrorModel::Io,
        }
    }
}

/// The text that describes an error to a person.
pub open spec fn error_message(e: ErrorModel) -> Seq<char> {
    match e {
        ErrorModel::OutOfPancakes => "Out of pancakes!"@,
        ErrorModel::InvalidPancake(text) => "Invalid pancake: "@ + text,
        ErrorModel::CanNotShowPancake(v) => "Pancake can not be shown (invalid char): "@
            + dec_chars_of(v as nat),
        ErrorModel::UndefinedLabel(name) => "Use of undefined label \""@ + name + "\""@,
        ErrorModel::PancakeUnderflow => "Pancake underflowed its domain."@,
        ErrorModel::PancakeOverflow => "Pancake overflowed its domain."@,
        ErrorModel::Io => "An input or output stream failed."@,
    }
}

impl Error {
    /// Describes the error, for diagnostics.
    pub fn message(&self) -> (s: String)
        ensures
            s@ == error_message(self@),
    {
        match self {
            Error::OutOfPancakes => String::from_str("Out of pancakes!"),
            Error::InvalidPancake(text) => {
                let mut s = String::from_str("Invalid pancake: ");
                s.append(text.as_str());
                s
            },
            Error::CanNotShowPancake(v) => {
                let mut s = String::from_str("Pancake can not be shown (invalid char): ");
                let digits = u32_to_decimal(*v);
                s.append(digits.as_str());
                s
            },
            Error::UndefinedLabel(name) => {
                let mut s = String::from_str("Use of undefined label \"");
                s.append(name.as_str());
                s.append("\"");
                s
            },
            Error::PancakeUnderflow => String::from_str("Pancake underflowed its domain."),
            Error::PancakeOverflow => String::from_str("Pancake overflowed its domain."),
            Error::Io(_) => String::from_str("An input or output stream failed."),
        }
    }
}

/// The label table denoted by a sequence of definitions: later
/// definitions of a name shadow earlier ones.
pub open spec fn labels_map(entries: Seq<(String, usize)>) -> Map<Seq<char>, usize>
    decreases entries.len(),
{
    if entries.len() == 0 {
        Map::empty()
    } else {
        labels_map(entries.drop_last()).insert(entries.last().0@, entries.last().1)
    }
}

/// The mathematical model of a [`Machine`]: the pancake stack, top
/// last, and the label table.
pub struct MachineModel {
    pub stack: Seq<u32>,
    pub labels: Map<Seq<char>, usize>,
}

/// The pancake stack and the label table of one run.
pub struct Machine {
    stack: Vec<u32>,
    labels: Vec<(String, usize)>,
}

impl View for Machine {
    type V = MachineModel;

    closed spec fn view(&self) -> MachineModel {
        MachineModel { stack: self.stack@, labels: labels_map(self.labels@) }
    }
}

/// The pancake pushed for an adjective: its count of extended grapheme
/// clusters, truncated to 32 bits.
pub open spec fn adjective_weight(adj: Seq<char>) -> u32 {
    (grapheme_count_of(adj) % 0x1_0000_0000) as u32
}

/// Effect of `PutThisPancakeOnTop`.
pub open spec fn spec_push_adjective(m: MachineModel, adj: Seq<char>) -> MachineModel {
    MachineModel { stack: m.stack.push(adjective_weight(adj)), ..m }
}

/// Effect of `EatThePancakeOnTop`.
pub open spec fn spec_eat(m: MachineModel) -> Result<MachineModel, ErrorModel> {
    if m.stack.len() == 0 {
        Err(ErrorModel::OutOfPancakes)
    } else {
        Ok(MachineModel { stack: m.stack.drop_last(), ..m })
    }
}

/// Effect of `PutTheTopPancakesTogether`: pops the top two and pushes
/// their checked sum.
pub open spec fn spec_put_together(m: MachineModel) -> Result<MachineModel, ErrorModel> {
    if m.stack.len() < 2 {
        Err(ErrorModel::OutOfPancakes)
    } else {
        let a = m.stack.last();
        let b = m.stack[m.stack.len() - 2];
        if a + b > u32::MAX {
            Err(ErrorModel::PancakeOverflow)
        } else {
            Ok(
                MachineModel {
                    stack: m.stack.drop_last().drop_last().push((a + b) as u32),
                    ..m
                },
            )
        }
    }
}

/// Effect of `TakeFromTheTopPancakes`: pops the top two and pushes the
/// checked difference, top minus second.
pub open spec fn spec_take_from(m: MachineModel) -> Result<MachineModel, ErrorModel> {
    if m.stack.len() < 2 {
        Err(ErrorModel::OutOfPancakes)
    } else {
        let a = m.stack.last();
        let b = m.stack[m.stack.len() - 2];
        if a < b {
            Err(ErrorModel::PancakeUnderflow)
        } else {
            Ok(
                MachineModel {
                    stack: m.stack.drop_last().drop_last().push((a - b) as u32),
                    ..m
                },
            )
        }
    }
}

/// Effect of `FlipThePancakesOnTop`: swaps the top two.
pub open spec fn spec_flip(m: MachineModel) -> Result<MachineModel, ErrorModel> {
    if m.stack.len() < 2 {
        Err(ErrorModel::OutOfPancakes)
    } else {
        let a = m.stack.last();
        let b = m.stack[m.stack.len() - 2];
        Ok(MachineModel { stack: m.stack.drop_last().drop_last().push(a).push(b), ..m })
    }
}

/// Effect of `PutAnotherPancakeOnTop`: duplicates the top.
pub open spec fn spec_duplicate(m: MachineModel) -> Result<MachineModel, ErrorModel> {
    if m.stack.len() == 0 {
        Err(ErrorModel::OutOfPancakes)
    } else {
        Ok(MachineModel { stack: m.stack.push(m.stack.last()), ..m })
    }
}

/// Effect of `GiveMeAPancake` on one line of textual input, handed
/// over with its terminator still attached: the terminator is stripped
/// first, and the remaining text must be an unsigned 32-bit decimal
/// literal. A rejection carries the stripped text.
pub open spec fn spec_give(m: MachineModel, line: Seq<u8>) -> Result<MachineModel, ErrorModel> {
    let text = strip_line_terminator(line);
    if is_u32_literal(text) {
        Ok(MachineModel { stack: m.stack.push(u32_literal_value(text) as u32), ..m })
    } else {
        Err(ErrorModel::InvalidPancake(lossy_decode_of(text)))
    }
}

/// Effect of `HowAboutAHotcake` on one raw input byte.
pub open spec fn spec_hotcake(m: MachineModel, byte: u8) -> MachineModel {
    MachineModel { stack: m.stack.push(byte as u32), ..m }
}

/// Effect of `ShowMeAPancake`: the scalar value to write, leaving the
/// stack untouched.
pub open spec fn spec_show(m: MachineModel) -> Result<u32, ErrorModel> {
    if m.stack.len() == 0 {
        Err(ErrorModel::OutOfPancakes)
    } else if is_scalar(m.stack.last()) {
        Ok(m.stack.last())
    } else {
        Err(ErrorModel::CanNotShowPancake(m.stack.last()))
    }
}

/// Effect of `Label`: records the address under the name, shadowing an
/// earlier definition; the stack must not be empty.
pub open spec fn spec_define_label(m: MachineModel, name: Seq<char>, address: usize) -> Result<
    MachineModel,
    ErrorModel,
> {
    if m.stack.len() == 0 {
        Err(ErrorModel::OutOfPancakes)
    } else {
        Ok(MachineModel { labels: m.labels.insert(name, address), ..m })
    }
}

/// Effect of the two conditional branches: `Some` address when the
/// branch is taken, `None` when it falls through. `jump_when_tasty`
/// selects which branch command is meant: the tasty branch jumps on a
/// non-zero top, the tasteless one on a zero top.
pub open spec fn spec_branch(m: MachineModel, name: Seq<char>, jump_when_tasty: bool) -> Result<
    Option<usize>,
    ErrorModel,
> {
    if m.stack.len() == 0 {
        Err(ErrorModel::OutOfPancakes)
    } else if (m.stack.last() != 0) == jump_when_tasty {
        if m.labels.contains_key(name) {
            Ok(Some(m.labels[name]))
        } else {
            Err(ErrorModel::UndefinedLabel(name))
        }
    } else {
        Ok(None)
    }
}

/// The stack with every pancake below position `k` incremented.
pub open spec fn incremented_up_to(stack: Seq<u32>, k: int) -> Seq<u32> {
    Seq::new(stack.len(), |i: int| if i < k { (stack[i] + 1) as u32 } else { stack[i] })
}

/// The stack with every pancake below position `k` decremented.
pub open spec fn decremented_up_to(stack: Seq<u32>, k: int) -> Seq<u32> {
    Seq::new(stack.len(), |i: int| if i < k { (stack[i] - 1) as u32 } else { stack[i] })
}

/// First position holding the given value, or the length when the
/// value does not occur.
pub open spec fn first_at(stack: Seq<u32>, v: u32) -> int
    decreases stack.len(),
{
    if stack.len() == 0 {
        0
    } else if stack[0] == v {
        0
    } else {
        1 + first_at(stack.drop_first(), v)
    }
}

proof fn lemma_first_at(stack: Seq<u32>, v: u32, k: int)
    requires
        0 <= k <= stack.len(),
        forall|j: int| 0 <= j < k ==> stack[j] != v,
        k < stack.len() ==> stack[k] == v,
    ensures
        first_at(stack, v) == k,
    decreases k,
{
    if k > 0 {
        lemma_first_at(stack.drop_first(), v, k - 1);
    }
}

/// Effect of `PutSyrupOnThePancakes`: increments every pancake, or
/// fails when any is already at the maximum.
pub open spec fn spec_syrup(m: MachineModel) -> Result<MachineModel, ErrorModel> {
    if forall|i: int| 0 <= i < m.stack.len() ==> #[trigger] m.stack[i] < u32::MAX {
        Ok(MachineModel { stack: incremented_up_to(m.stack, m.stack.len() as int), ..m })
    } else {
        Err(ErrorModel::PancakeOverflow)
    }
}

/// Effect of `TakeOffTheSyrup`: decrements every pancake, or fails
/// when any is already zero.
pub open spec fn spec_unsyrup(m: MachineModel) -> Result<MachineModel, ErrorModel> {
    if forall|i: int| 0 <= i < m.stack.len() ==> #[trigger] m.stack[i] > 0 {
        Ok(MachineModel { stack: decremented_up_to(m.stack, m.stack.len() as int), ..m })
    } else {
        Err(ErrorModel::PancakeUnderflow)
    }
}

/// Effect of `PutButterOnThePancakes`: increments the top pancake.
pub open spec fn spec_butter(m: MachineModel) -> Result<MachineModel, ErrorModel> {
    if m.stack.len() == 0 {
        Err(ErrorModel::OutOfPancakes)
    } else if m.stack.last() == u32::MAX {
        Err(ErrorModel::PancakeOverflow)
    } else {
        Ok(
            MachineModel {
                stack: m.stack.update(m.stack.len() - 1, (m.stack.last() + 1) as u32),
                ..m
            },
        )
    }
}

/// Effect of `TakeOffTheButter`: decrements the top pancake.
pub open spec fn spec_unbutter(m: MachineModel) -> Result<MachineModel, ErrorModel> {
    if m.stack.len() == 0 {
        Err(ErrorModel::OutOfPancakes)
    } else if m.stack.last() == 0 {
        Err(ErrorModel::PancakeUnderflow)
    } else {
        Ok(
            MachineModel {
                stack: m.stack.update(m.stack.len() - 1, (m.stack.last() - 1) as u32),
                ..m
            },
        )
    }
}

proof fn lemma_labels_lookup(entries: Seq<(String, usize)>, j: int, k: Seq<char>)
    requires
        0 <= j < entries.len(),
        entries[j].0@ == k,
        forall|t: int| j < t < entries.len() ==> #[trigger] entries[t].0@ != k,
    ensures
        labels_map(entries).contains_key(k),
        labels_map(entries)[k] == entries[j].1,
    decreases entries.len(),
{
    if j < entries.len() - 1 {
        assert(forall|t: int|
            j < t < entries.drop_last().len() ==> #[trigger] entries.drop_last()[t].0@ != k);
        lemma_labels_lookup(entries.drop_last(), j, k);
    }
}

proof fn lemma_labels_absent(entries: Seq<(String, usize)>, k: Seq<char>)
    requires
        forall|t: int| 0 <= t < entries.len() ==> #[trigger] entries[t].0@ != k,
    ensures
        !labels_map(entries).contains_key(k),
    decreases entries.len(),
{
    if entries.len() > 0 {
        assert(forall|t: int|
            0 <= t < entries.drop_last().len() ==> #[trigger] entries.drop_last()[t].0@ != k);
        lemma_labels_absent(entries.drop_last(), k);
    }
}

impl Machine {
    /// A machine at the start of a run: empty stack, no labels.
    pub fn new() -> (m: Machine)
        ensures
            m@.stack == Seq::<u32>::empty(),
            m@.labels == Map::<Seq<char>, usize>::empty(),
    {
        Machine { stack: Vec::new(), labels: Vec::new() }
    }

    /// `PutThisPancakeOnTop`: pushes the adjective's grapheme count.
    pub fn push_adjective(&mut self, adjective: &str)
        ensures
            final(self)@ == spec_push_adjective(old(self)@, adjective@),
    {
        let count: usize = grapheme_count(adjective);
        let wide: u64 = count as u64;
        let weight: u32 = (wide % 0x1_0000_0000u64) as u32;
        self.stack.push(weight);
    }

    /// `EatThePancakeOnTop`: pops the top pancake.
    pub fn eat_top(&mut self) -> (r: Result<(), Error>)
        ensures
            match spec_eat(old(self)@) {
                Ok(m2) => r is Ok && final(self)@ == m2,
                Err(e) => (r matches Err(er) && er@ == e) && final(self)@ == old(self)@,
            },
    {
        if self.stack.len() == 0 {
            return Err(Error::OutOfPancakes);
        }
        self.stack.pop();
        Ok(())
    }

    /// `PutTheTopPancakesTogether`: pops the top two, pushes the sum.
    /// On overflow both operands are already gone.
    pub fn put_top_together(&mut self) -> (r: Result<(), Error>)
        ensures
            match spec_put_together(old(self)@) {
                Ok(m2) => r is Ok && final(self)@ == m2,
                Err(e) => {
                    &&& r matches Err(er) && er@ == e
                    &&& final(self)@.labels == old(self)@.labels
                    &&& final(self)@.stack == (if old(self)@.stack.len() < 2 {
                        old(self)@.stack
                    } else {
                        old(self)@.stack.drop_last().drop_last()
                    })
                },
            },
    {
        if self.stack.len() < 2 {
            return Err(Error::OutOfPancakes);
        }
        let first: u32 = self.stack.pop().unwrap();
        let second: u32 = self.stack.pop().unwrap();
        match first.checked_add(second) {
            Some(v) => {
                self.stack.push(v);
                Ok(())
            },
            None => Err(Error::PancakeOverflow),
        }
    }

    /// `TakeFromTheTopPancakes`: pops the top two, pushes top minus
    /// second. On underflow both operands are already gone.
    pub fn take_from_top(&mut self) -> (r: Result<(), Error>)
        ensures
            match spec_take_from(old(self)@) {
                Ok(m2) => r is Ok && final(self)@ == m2,
                Err(e) => {
                    &&& r matches Err(er) && er@ == e
                    &&& final(self)@.labels == old(self)@.labels
                    &&& final(self)@.stack == (if old(self)@.stack.len() < 2 {
                        old(self)@.stack
                    } else {
                        old(self)@.stack.drop_last().drop_last()
                    })
                },
            },
    {
        if self.stack.len() < 2 {
            return Err(Error::OutOfPancakes);
        }
        let first: u32 = self.stack.pop().unwrap();
        let second: u32 = self.stack.pop().unwrap();
        match first.checked_sub(second) {
            Some(v) => {
                self.stack.push(v);
                Ok(())
            },
            None => Err(Error::PancakeUnderflow),
        }
    }

    /// `FlipThePancakesOnTop`: swaps the top two pancakes.
    pub fn flip_top(&mut self) -> (r: Result<(), Error>)
        ensures
            match spec_flip(old(self)@) {
                Ok(m2) => r is Ok && final(self)@ == m2,
                Err(e) => (r matches Err(er) && er@ == e) && final(self)@ == old(self)@,
            },
    {
        if self.stack.len() < 2 {
            return Err(Error::OutOfPancakes);
        }
        let first: u32 = self.stack.pop().unwrap();
        let second: u32 = self.stack.pop().unwrap();
        self.stack.push(first);
        self.stack.push(second);
        Ok(())
    }

    /// `PutAnotherPancakeOnTop`: duplicates the top pancake.
    pub fn duplicate_top(&mut self) -> (r: Result<(), Error>)
        ensures
            match spec_duplicate(old(self)@) {
                Ok(m2) => r is Ok && final(self)@ == m2,
                Err(e) => (r matches Err(er) && er@ == e) && final(self)@ == old(self)@,
            },
    {
        if self.stack.len() == 0 {
            return Err(Error::OutOfPancakes);
        }
        let top: u32 = self.stack[self.stack.len() - 1];
        self.stack.push(top);
        Ok(())
    }

    /// `GiveMeAPancake`: strips the terminator from one line of
    /// textual input, parses the rest as an unsigned 32-bit number and
    /// pushes it.
    pub fn give_pancake(&mut self, line: &[u8]) -> (r: Result<(), Error>)
        ensures
            match spec_give(old(self)@, line@) {
                Ok(m2) => r is Ok && final(self)@ == m2,
                Err(e) => (r matches Err(er) && er@ == e) && final(self)@ == old(self)@,
            },
    {
        let n: usize = line.len();
        let end: usize = if n >= 1 && line[n - 1] == 0x0a {
            if n >= 2 && line[n - 2] == 0x0d {
                n - 2
            } else {
                n - 1
            }
        } else {
            n
        };
        let text: &[u8] = &line[0..end];
        proof {
            assert(text@ =~= strip_line_terminator(line@));
        }
        match parse_u32_decimal(text) {
            Some(v) => {
                self.stack.push(v);
                Ok(())
            },
            None => Err(Error::InvalidPancake(lossy_string(text))),
        }
    }

    /// `HowAboutAHotcake`: pushes one raw input byte.
    pub fn take_hotcake(&mut self, byte: u8)
        ensures
            final(self)@ == spec_hotcake(old(self)@, byte),
    {
        self.stack.push(byte as u32);
    }

    /// `ShowMeAPancake`: reads the top pancake as a Unicode scalar
    /// value, leaving the stack untouched.
    pub fn show_top(&self) -> (r: Result<char, Error>)
        ensures
            match spec_show(self@) {
                Ok(v) => r matches Ok(c) && c as u32 == v,
                Err(e) => r matches Err(er) && er@ == e,
            },
    {
        if self.stack.len() == 0 {
            return Err(Error::OutOfPancakes);
        }
        let top: u32 = self.stack[self.stack.len() - 1];
        match char::from_u32(top) {
            Some(c) => Ok(c),
            None => Err(Error::CanNotShowPancake(top)),
        }
    }

    /// `Label`: records the address under the name; a later definition
    /// of the same name wins.
    pub fn define_label(&mut self, name: &str, address: usize) -> (r: Result<(), Error>)
        ensures
            match spec_define_label(old(self)@, name@, address) {
                Ok(m2) => r is Ok && final(self)@ == m2,
                Err(e) => (r matches Err(er) && er@ == e) && final(self)@ == old(self)@,
            },
    {
        if self.stack.len() == 0 {
            return Err(Error::OutOfPancakes);
        }
        let ghost prev = self.labels@;
        self.labels.push((name.to_owned(), address));
        proof {
            assert(self.labels@.drop_last() =~= prev);
        }
        Ok(())
    }

    /// The address recorded for a label name, if any.
    pub fn label_address(&self, name: &str) -> (r: Option<usize>)
        ensures
            r == (if self@.labels.contains_key(name@) {
                Some(self@.labels[name@])
            } else {
                None::<usize>
            }),
    {
        let mut j: usize = self.labels.len();
        while j > 0
            invariant
                j <= self.labels.len(),
                forall|t: int| j <= t < self.labels@.len() ==> #[trigger] self.labels@[t].0@ != name@,
            decreases j,
    {
            j = j - 1;
            if str_eq(self.labels[j].0.as_str(), name) {
                proof {
                    lemma_labels_lookup(self.labels@, j as int, name@);
                }
                return Some(self.labels[j].1);
            }
        }
        proof {
            lemma_labels_absent(self.labels@, name@);
        }
        None
    }

    /// The two conditional branches: tests the top pancake and, when
    /// the branch is taken, resolves the target label.
    pub fn branch_target(&self, name: &str, jump_when_tasty: bool) -> (r: Result<
        Option<usize>,
        Error,
    >)
        ensures
            match spec_branch(self@, name@, jump_when_tasty) {
                Ok(t) => r matches Ok(t2) && t2 == t,
                Err(e) => r matches Err(er) && er@ == e,
            },
    {
        if self.stack.len() == 0 {
            return Err(Error::OutOfPancakes);
        }
        let top: u32 = self.stack[self.stack.len() - 1];
        if (top != 0) == jump_when_tasty {
            match self.label_address(name) {
                Some(address) => Ok(Some(address)),
                None => Err(Error::UndefinedLabel(name.to_owned())),
            }
        } else {
            Ok(None)
        }
    }

    /// `PutSyrupOnThePancakes`: increments every pancake. On overflow
    /// the pancakes below the first one at the maximum are already
    /// incremented, as the walk goes bottom-up.
    pub fn add_syrup(&mut self) -> (r: Result<(), Error>)
        ensures
            match spec_syrup(old(self)@) {
                Ok(m2) => r is Ok && final(self)@ == m2,
                Err(e) => {
                    &&& r matches Err(er) && er@ == e
                    &&& final(self)@.labels == old(self)@.labels
                    &&& final(self)@.stack == incremented_up_to(
                        old(self)@.stack,
                        first_at(old(self)@.stack, u32::MAX),
                    )
                },
            },
    {
        let n: usize = self.stack.len();
        let mut i: usize = 0;
        while i < n
            invariant
                n == self.stack.len(),
                n == old(self)@.stack.len(),
                0 <= i <= n,
                self@.labels == old(self)@.labels,
                forall|j: int| 0 <= j < i ==> old(self)@.stack[j] != u32::MAX,
                forall|j: int|
                    0 <= j < i ==> self.stack@[j] == (old(self)@.stack[j] + 1) as u32,
                forall|j: int| i <= j < n ==> self.stack@[j] == old(self)@.stack[j],
            decreases n - i,
        {
            let v: u32 = self.stack[i];
            if v == u32::MAX {
                proof {
                    lemma_first_at(old(self)@.stack, u32::MAX, i as int);
                    assert(self.stack@ =~= incremented_up_to(old(self)@.stack, i as int));
                }
                return Err(Error::PancakeOverflow);
            }
            self.stack[i] = v + 1;
            i = i + 1;
        }
        proof {
            assert(self.stack@ =~= incremented_up_to(old(self)@.stack, n as int));
        }
        Ok(())
    }

    /// `TakeOffTheSyrup`: decrements every pancake. On underflow the
    /// pancakes below the first zero are already decremented.
    pub fn remove_syrup(&mut self) -> (r: Result<(), Error>)
        ensures
            match spec_unsyrup(old(self)@) {
                Ok(m2) => r is Ok && final(self)@ == m2,
                Err(e) => {
                    &&& r matches Err(er) && er@ == e
                    &&& final(self)@.labels == old(self)@.labels
                    &&& final(self)@.stack == decremented_up_to(
                        old(self)@.stack,
                        first_at(old(self)@.stack, 0),
                    )
                },
            },
    {
        let n: usize = self.stack.len();
        let mut i: usize = 0;
        while i < n
            invariant
                n == self.stack.len(),
                n == old(self)@.stack.len(),
                0 <= i <= n,
                self@.labels == old(self)@.labels,
                forall|j: int| 0 <= j < i ==> old(self)@.stack[j] != 0,
                forall|j: int|
                    0 <= j < i ==> self.stack@[j] == (old(self)@.stack[j] - 1) as u32,
                forall|j: int| i <= j < n ==> self.stack@[j] == old(self)@.stack[j],
            decreases n - i,
        {
            let v: u32 = self.stack[i];
            if v == 0 {
                proof {
                    lemma_first_at(old(self)@.stack, 0, i as int);
                    assert(self.stack@ =~= decremented_up_to(old(self)@.stack, i as int));
                }
                return Err(Error::PancakeUnderflow);
            }
            self.stack[i] = v - 1;
            i = i + 1;
        }
        proof {
            assert(self.stack@ =~= decremented_up_to(old(self)@.stack, n as int));
        }
        Ok(())
    }

    /// `PutButterOnThePancakes`: increments the top pancake.
    pub fn add_butter(&mut self) -> (r: Result<(), Error>)
        ensures
            match spec_butter(old(self)@) {
                Ok(m2) => r is Ok && final(self)@ == m2,
                Err(e) => (r matches Err(er) && er@ == e) && final(self)@ == old(self)@,
            },
    {
        let n: usize = self.stack.len();
        if n == 0 {
            return Err(Error::OutOfPancakes);
        }
        let top: u32 = self.stack[n - 1];
        match top.checked_add(1) {
            Some(v) => {
                self.stack[n - 1] = v;
                Ok(())
            },
            None => Err(Error::PancakeOverflow),
        }
    }

    /// `TakeOffTheButter`: decrements the top pancake.
    pub fn remove_butter(&mut self) -> (r: Result<(), Error>)
        ensures
            match spec_unbutter(old(self)@) {
                Ok(m2) => r is Ok && final(self)@ == m2,
                Err(e) => (r matches Err(er) && er@ == e) && final(self)@ == old(self)@,
            },
    {
        let n: usize = self.stack.len();
        if n == 0 {
            return Err(Error::OutOfPancakes);
        }
        let top: u32 = self.stack[n - 1];
        match top.checked_sub(1) {
            Some(v) => {
                self.stack[n - 1] = v;
                Ok(())
            },
            None => Err(Error::PancakeUnderflow),
        }
    }
}

} // verus!
