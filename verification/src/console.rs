//! The kernel console: line editing over a serial port, one received byte at
//! a time, and what a finished line asks for.

use vstd::prelude::*;
use crate::text::str_equal;

verus! {

/// `String::push`: appends `c`.
#[verifier::external_body]
fn string_push(s: &mut String, c: char)
    ensures
        final(s)@ == old(s)@.push(c),
{
    s.push(c);
}

/// `String::pop`: removes and returns the last character, if any.
#[verifier::external_body]
fn string_pop(s: &mut String) -> (r: Option<char>)
    ensures
        old(s)@.len() == 0 ==> r is None && final(s)@ == old(s)@,
        old(s)@.len() > 0 ==> r == Some(old(s)@.last()) && final(s)@ == old(s)@.drop_last(),
{
    s.pop()
}

/// What the console does with a received byte.
pub enum EditAction {
    /// The line is finished (carriage return or line feed): move to a new line.
    Submit,
    /// The last character was erased: write backspace, space, backspace.
    Erase,
    /// The byte was added to the line: write it back.
    Echo(u8),
    /// Nothing to do.
    Ignore,
}

/// The line being typed.
pub struct LineEditor {
    line: String,
}

/// The line after `byte` is received, and the action the console takes.
pub open spec fn edit(line: Seq<char>, byte: u8) -> (Seq<char>, EditAction) {
    if byte == 13 || byte == 10 {
        (line, EditAction::Submit)
    } else if byte == 8 || byte == 127 {
        if line.len() > 0 {
            (line.drop_last(), EditAction::Erase)
        } else {
            (line, EditAction::Ignore)
        }
    } else if 32 <= byte <= 126 {
        (line.push(byte as char), EditAction::Echo(byte))
    } else {
        (line, EditAction::Ignore)
    }
}

impl LineEditor {
    pub fn new() -> (e: Self)
        ensures
            e.line() == Seq::<char>::empty(),
    {
        LineEditor { line: String::new() }
    }

    /// The characters typed so far.
    pub closed spec fn line(&self) -> Seq<char> {
        self.line@
    }

    /// The line typed so far.
    pub fn text(&self) -> (r: &str)
        ensures
            r@ == self.line(),
    {
        self.line.as_str()
    }

    /// Starts a new, empty line.
    pub fn clear(&mut self)
        ensures
            final(self).line() == Seq::<char>::empty(),
    {
        self.line = String::new();
    }

    /// Takes in one received byte: a carriage return or line feed finishes the
    /// line, backspace or delete erases the last character, a printable ASCII
    /// byte is added, anything else is ignored.
    pub fn feed(&mut self, byte: u8) -> (a: EditAction)
        ensures
            (final(self).line(), a) == edit(old(self).line(), byte),
    {
        if byte == 13 || byte == 10 {
            EditAction::Submit
        } else if byte == 8 || byte == 127 {
            match string_pop(&mut self.line) {
                Some(_) => EditAction::Erase,
                None => EditAction::Ignore,
            }
        } else if 32 <= byte && byte <= 126 {
            string_push(&mut self.line, byte as char);
            EditAction::Echo(byte)
        } else {
            EditAction::Ignore
        }
    }
}

/// What a finished line asks for.
pub enum Command {
    /// Nothing was typed: prompt again.
    Empty,
    /// `help`: list the tools and capabilities.
    Help,
    /// Anything else is an intent to compile and run.
    Intent,
}

/// The command a finished line gives.
pub fn classify(line: &str) -> (c: Command)
    ensures
        line@.len() == 0 ==> c is Empty,
        line@.len() > 0 && line@ == "help"@ ==> c is Help,
        line@.len() > 0 && line@ != "help"@ ==> c is Intent,
{
    if line.unicode_len() == 0 {
        Command::Empty
    } else if str_equal(line, "help") {
        Command::Help
    } else {
        Command::Intent
    }
}

} // verus!
