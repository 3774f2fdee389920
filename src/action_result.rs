//! What running an action on one plugin gave.

use vstd::prelude::*;

use crate::plugin::Plugin;
use crate::prefix_lines::{prefix_lines_of, prefixed, text_lines};
use crate::text::{lemma_find_char, line_end, lines_from, push_str};

verus! {

/// The outcome of an action on one plugin, with the output it captured.
#[derive(Debug)]
pub struct ActionResult {
    pub plugin: Plugin,
    /// `Ok` where the action succeeded; else what went wrong.
    pub result: Result<(), String>,
    pub stdout: String,
    pub stderr: String,
}

impl ActionResult {
    /// The record of an action on `plugin`, from its outcome, standard output and standard error.
    pub fn new(plugin: Plugin, output: (Result<(), String>, String, String)) -> (r: ActionResult)
        ensures
            r.plugin == plugin,
            r.result == output.0,
            r.stdout == output.1,
            r.stderr == output.2,
    {
        ActionResult { plugin, result: output.0, stdout: output.1, stderr: output.2 }
    }

    /// Whether the action succeeded.
    pub fn succeeded(&self) -> (r: bool)
        ensures
            r == self.result is Ok,
    {
        self.result.is_ok()
    }
}

/// A block of captured output: each of its lines after `prefix`, and a line
/// feed after the last; nothing where there is no line.
pub open spec fn output_block(output: Seq<char>, prefix: Seq<char>) -> Seq<char> {
    if text_lines(output).len() == 0 {
        Seq::empty()
    } else {
        prefixed(text_lines(output), prefix) + seq!['\n']
    }
}

/// A text has lines exactly where it is not empty.
proof fn lemma_no_lines(s: Seq<char>)
    ensures
        text_lines(s).len() == 0 <==> s.len() == 0,
{
    let ps = lines_from(s, 0);
    let e = line_end(s, 0);
    lemma_find_char(s, 0, '\n');
    if s.len() == 0 {
        assert(ps =~= seq![s.subrange(0, 0)]);
    } else if e < s.len() {
        assert(lines_from(s, e + 1).len() >= 1);
        assert(ps.len() >= 2);
    } else {
        assert(ps =~= seq![s.subrange(0, e)]);
        assert(ps.last().len() > 0);
    }
}

impl ActionResult {
    /// The captured output of a failed action, for the user: the standard
    /// output after `out_prefix` on each line, then the standard error after
    /// `err_prefix` on each line.
    pub fn failure_details(&self, out_prefix: &str, err_prefix: &str) -> (r: String)
        ensures
            r@ == output_block(self.stdout@, out_prefix@) + output_block(self.stderr@, err_prefix@),
    {
        proof {
            reveal_strlit("\n");
            assert("\n"@ =~= seq!['\n']);
            lemma_no_lines(self.stdout@);
            lemma_no_lines(self.stderr@);
        }
        let mut r = String::new();
        if !self.stdout.as_str().is_empty() {
            push_str(&mut r, prefix_lines_of(self.stdout.as_str(), out_prefix).as_str());
            push_str(&mut r, "\n");
        }
        let ghost first = r@;
        if !self.stderr.as_str().is_empty() {
            push_str(&mut r, prefix_lines_of(self.stderr.as_str(), err_prefix).as_str());
            push_str(&mut r, "\n");
        }
        assert(first =~= output_block(self.stdout@, out_prefix@));
        assert(r@ =~= first + output_block(self.stderr@, err_prefix@));
        r
    }
}

} // verus!
