//! Commands for the tools: a program and its arguments, as values. Starting
//! them is left to the caller.

use vstd::prelude::*;

verus! {

/// A program and the arguments it is to be started with.
#[derive(Debug)]
pub struct CommandLine {
    pub program: String,
    pub arguments: Vec<String>,
}

/// The text of a `CommandLine`.
pub struct Invocation {
    pub program: Seq<char>,
    pub arguments: Seq<Seq<char>>,
}

impl View for CommandLine {
    type V = Invocation;

    open spec fn view(&self) -> Invocation {
        Invocation { program: self.program@, arguments: self.arguments.deep_view() }
    }
}

impl DeepView for CommandLine {
    type V = Invocation;

    open spec fn deep_view(&self) -> Invocation {
        self@
    }
}

/// A copy of a list of names.
pub fn copy_names(names: &Vec<String>) -> (copy: Vec<String>)
    ensures
        copy.deep_view() == names.deep_view(),
{
    let mut copy: Vec<String> = Vec::new();
    let mut i: usize = 0;
    while i < names.len()
        invariant
            i <= names.len(),
            copy.len() == i,
            forall|j: int| 0 <= j < i ==> copy[j]@ == names[j]@,
        decreases names.len() - i,
    {
        copy.push(names[i].clone());
        i += 1;
    }
    assert(copy.deep_view() =~= names.deep_view());
    copy
}

/// A copy of a command.
pub fn copy_command(command: &CommandLine) -> (copy: CommandLine)
    ensures
        copy@ == command@,
{
    CommandLine { program: command.program.clone(), arguments: copy_names(&command.arguments) }
}

} // verus!
