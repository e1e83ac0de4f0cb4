//! Commands to run and what running them gave.

use vstd::prelude::*;

verus! {

/// A program and the arguments to run it with.
#[derive(Debug, PartialEq)]
pub struct Invocation {
    pub program: String,
    pub args: Vec<String>,
}

/// How a command ended, and what it wrote.
#[derive(Debug, PartialEq)]
pub struct CommandOutput {
    /// Whether it exited with code zero.
    pub success: bool,
    pub stdout: Vec<u8>,
    pub stderr: Vec<u8>,
}

/// `parts` as owned texts.
pub fn texts(parts: &Vec<&str>) -> (r: Vec<String>)
    ensures
        r.deep_view() == parts.deep_view(),
{
    let mut out: Vec<String> = Vec::new();
    let mut i: usize = 0;
    while i < parts.len()
        invariant
            i <= parts.len(),
            out.len() == i,
            forall|j: int| 0 <= j < i ==> out[j]@ == parts[j]@,
        decreases parts.len() - i,
    {
        out.push(parts[i].to_owned());
        i += 1;
    }
    assert(out.deep_view() =~= parts.deep_view());
    out
}

} // verus!
