//! One command's process as the engine sees it: the lines it has printed so
//! far and, once it has ended, how it ended. The lines only ever grow at the
//! end, so any number of readers can follow them, each with a cursor of its
//! own.

use vstd::prelude::*;
use crate::error::ExitStatus;

verus! {

/// One line of output, tagged with the stream it came from. The line
/// terminator is not part of the text.
#[derive(Debug, PartialEq, Eq)]
pub enum Output {
    Stdout(String),
    Stderr(String),
}

/// A line of output as a mathematical value.
pub enum OutputLine {
    Stdout(Seq<char>),
    Stderr(Seq<char>),
}

impl View for Output {
    type V = OutputLine;

    open spec fn view(&self) -> OutputLine {
        match self {
            Output::Stdout(text) => OutputLine::Stdout(text@),
            Output::Stderr(text) => OutputLine::Stderr(text@),
        }
    }
}

impl Clone for Output {
    fn clone(&self) -> (r: Self)
        ensures
            r@ == self@,
    {
        match self {
            Output::Stdout(text) => Output::Stdout(text.clone()),
            Output::Stderr(text) => Output::Stderr(text.clone()),
        }
    }
}

impl Output {
    /// Whether the line came from the standard error stream.
    pub fn is_stderr(&self) -> (r: bool)
        ensures
            r == (self@ is Stderr),
    {
        match self {
            Output::Stdout(_) => false,
            Output::Stderr(_) => true,
        }
    }

    /// The text of the line.
    pub fn text(&self) -> (r: &String)
        ensures
            r@ == match self@ {
                OutputLine::Stdout(text) => text,
                OutputLine::Stderr(text) => text,
            },
    {
        match self {
            Output::Stdout(text) => text,
            Output::Stderr(text) => text,
        }
    }
}

/// The views of a sequence of lines.
pub open spec fn lines_of(items: Seq<Output>) -> Seq<OutputLine> {
    items.map_values(|line: Output| line@)
}

/// A process: what it has printed, and its exit status once it has ended.
#[derive(Debug)]
pub struct Process {
    output: Vec<Output>,
    status: Option<ExitStatus>,
}

/// A process as a mathematical value.
pub struct ProcessView {
    pub output: Seq<OutputLine>,
    pub status: Option<ExitStatus>,
}

impl ProcessView {
    /// A process that has printed nothing and has not ended.
    pub open spec fn fresh() -> ProcessView {
        ProcessView { output: Seq::empty(), status: None }
    }

    /// Whether `self` can be a later state of `earlier`: every line of
    /// `earlier` is still there at the same index, and a process that has
    /// ended does not change any more.
    pub open spec fn extends(self, earlier: ProcessView) -> bool {
        &&& earlier.output.is_prefix_of(self.output)
        &&& earlier.status is Some ==> self == earlier
    }

    /// What a reader has seen after it has pulled `count` lines.
    pub open spec fn seen(self, count: nat) -> Seq<OutputLine> {
        self.output.take(count as int)
    }
}

impl View for Process {
    type V = ProcessView;

    closed spec fn view(&self) -> ProcessView {
        ProcessView { output: lines_of(self.output@), status: self.status }
    }
}

impl Process {
    /// A process that has printed nothing and has not ended.
    pub fn new() -> (r: Self)
        ensures
            r@ == ProcessView::fresh(),
    {
        let r = Process { output: Vec::new(), status: None };
        assert(lines_of(r.output@) =~= Seq::<OutputLine>::empty());
        r
    }

    /// Appends a line. A process that has ended prints no more: the line is
    /// then dropped, and the answer is `false`.
    pub fn push(&mut self, line: Output) -> (appended: bool)
        ensures
            appended == (old(self)@.status is None),
            appended ==> final(self)@ == (ProcessView {
                output: old(self)@.output.push(line@),
                ..old(self)@
            }),
            !appended ==> final(self)@ == old(self)@,
            final(self)@.extends(old(self)@),
    {
        match self.status {
            Some(_) => false,
            None => {
                self.output.push(line);
                assert(lines_of(self.output@) =~= lines_of(old(self).output@).push(line@));
                true
            },
        }
    }

    /// Records how the process ended. Only the first report counts; the
    /// answer says whether this was it.
    pub fn exit(&mut self, status: ExitStatus) -> (recorded: bool)
        ensures
            recorded == (old(self)@.status is None),
            recorded ==> final(self)@ == (ProcessView { status: Some(status), ..old(self)@ }),
            !recorded ==> final(self)@ == old(self)@,
            final(self)@.extends(old(self)@),
    {
        match self.status {
            Some(_) => false,
            None => {
                self.status = Some(status);
                true
            },
        }
    }

    /// How the process ended, if it has.
    pub fn status(&self) -> (r: Option<ExitStatus>)
        ensures
            r == self@.status,
    {
        self.status
    }

    /// The number of lines printed so far.
    pub fn len(&self) -> (r: usize)
        ensures
            r == self@.output.len(),
    {
        self.output.len()
    }

    /// The line at `index`, if the process has printed that many.
    pub fn line(&self, index: usize) -> (r: Option<Output>)
        ensures
            index < self@.output.len() ==> r is Some && r->0@ == self@.output[index as int],
            index >= self@.output.len() ==> r is None,
    {
        if index < self.output.len() {
            Some(self.output[index].clone())
        } else {
            None
        }
    }

    /// All lines printed so far, in order.
    pub fn lines(&self) -> (r: Vec<Output>)
        ensures
            lines_of(r@) == self@.output,
    {
        let mut copy: Vec<Output> = Vec::new();
        let mut i: usize = 0;
        while i < self.output.len()
            invariant
                i <= self.output.len(),
                copy.len() == i,
                forall|j: int| 0 <= j < i ==> copy@[j]@ == self.output@[j]@,
            decreases self.output.len() - i,
        {
            copy.push(self.output[i].clone());
            i = i + 1;
        }
        assert(lines_of(copy@) =~= lines_of(self.output@));
        copy
    }
}

/// What one pull on an output stream gives.
#[derive(Debug, PartialEq, Eq)]
pub enum Pull {
    /// The next line.
    Line(Output),
    /// The process has ended and the reader has seen every line.
    End,
    /// Nothing new yet: pull again when the process has printed or ended.
    Wait,
}

/// A reader's place in a process's output. Readers do not disturb one
/// another: each holds its own cursor, and pulling changes nothing else.
#[derive(Debug)]
pub struct OutputStream {
    index: usize,
}

impl OutputStream {
    /// A reader that has seen nothing yet.
    pub fn new() -> (r: Self)
        ensures
            r.position() == 0,
    {
        OutputStream { index: 0 }
    }

    /// The number of lines the reader has pulled.
    pub closed spec fn position(&self) -> nat {
        self.index as nat
    }

    /// The number of lines pulled so far.
    pub fn pulled(&self) -> (r: usize)
        ensures
            r == self.position(),
    {
        self.index
    }

    /// Pulls the next line of `process`. The line at the cursor is handed
    /// out and the cursor moves on by one; where there is none, the answer
    /// is `End` if the process has ended and `Wait` otherwise, and the
    /// cursor stays.
    pub fn poll_next(&mut self, process: &Process) -> (r: Pull)
        ensures
            match r {
                Pull::Line(line) => {
                    &&& old(self).position() < process@.output.len()
                    &&& line@ == process@.output[old(self).position() as int]
                    &&& final(self).position() == old(self).position() + 1
                    &&& process@.seen(final(self).position()) == process@.seen(
                        old(self).position(),
                    ).push(line@)
                },
                Pull::End => {
                    &&& old(self).position() >= process@.output.len()
                    &&& process@.status is Some
                    &&& final(self).position() == old(self).position()
                },
                Pull::Wait => {
                    &&& old(self).position() >= process@.output.len()
                    &&& process@.status is None
                    &&& final(self).position() == old(self).position()
                },
            },
    {
        if self.index < process.len() {
            if let Some(line) = process.line(self.index) {
                proof {
                    let at = self.index as int;
                    assert(process@.output.take(at + 1) =~= process@.output.take(at).push(line@));
                }
                self.index = self.index + 1;
                return Pull::Line(line);
            }
        }
        match process.status() {
            Some(_) => Pull::End,
            None => Pull::Wait,
        }
    }
}

/// A process's states form an order: each state extends itself, and a state
/// that extends one that extends a third extends the third.
pub proof fn extends_is_an_order(a: ProcessView, b: ProcessView, c: ProcessView)
    ensures
        a.extends(a),
        c.extends(b) && b.extends(a) ==> c.extends(a),
{
}

/// Two readers of one process see the same lines in the same order: what a
/// reader has seen after `count` pulls is still the beginning of what any
/// reader sees later, however far the process has got by then.
pub proof fn readers_agree(earlier: ProcessView, later: ProcessView, count: nat, more: nat)
    requires
        later.extends(earlier),
        count <= earlier.output.len(),
        count <= more <= later.output.len(),
    ensures
        earlier.seen(count).is_prefix_of(later.seen(more)),
        later.seen(count) == earlier.seen(count),
        later.seen(more).len() >= count,
        later.seen(more).take(count as int) == earlier.seen(count),
{
    assert(later.seen(count) =~= earlier.seen(count));
    assert(later.seen(more).take(count as int) =~= earlier.seen(count));
}

} // verus!
