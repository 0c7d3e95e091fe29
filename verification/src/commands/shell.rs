//! Programs to start: their names, arguments and environment; and the
//! splitting of an argument string into words as a shell would split it.

use crate::workspace::package::texts;
use vstd::prelude::*;
use vstd::string::StringExecFns;

verus! {

/// The words that `shlex::split` finds in `s`; none where `s` ends inside a
/// quotation or an escape.
pub uninterp spec fn shell_words(s: Seq<char>) -> Option<Seq<Seq<char>>>;

/// `shlex::split`: the result depends on the string alone.
#[verifier::external_body]
fn shlex_split(s: &str) -> (r: Option<Vec<String>>)
    ensures
        match r {
            Some(words) => shell_words(s@) == Some(texts(words@)),
            None => shell_words(s@) is None,
        },
{
    shlex::split(s)
}

/// A program to start.
pub struct Invocation {
    /// The name of the script, which the workspace resolves to an executable.
    pub script: String,
    pub args: Vec<String>,
    /// Variables to set in the program's environment, with their values.
    pub env: Vec<(String, String)>,
    /// Whether the command fails when the program does.
    pub must_succeed: bool,
}

/// Why a command could not be run.
#[derive(Clone, PartialEq, Eq, Debug)]
pub enum CommandError {
    /// The extra arguments for `tool` end inside a quotation or an escape.
    BadArguments { tool: String },
}

/// The words of the extra arguments that were given, if any were.
pub open spec fn extra_words(extra: Option<String>) -> Option<Seq<Seq<char>>> {
    match extra {
        Some(s) => shell_words(s@),
        None => Some(Seq::empty()),
    }
}

/// Splits the extra arguments that were given for `tool` into words.
pub fn split_extra(extra: &Option<String>, tool: &str) -> (r: Result<Vec<String>, CommandError>)
    ensures
        match r {
            Ok(words) => extra_words(*extra) == Some(texts(words@)),
            Err(e) => {
                &&& extra_words(*extra) is None
                &&& e matches CommandError::BadArguments { tool: t }
                &&& t@ == tool@
            },
        },
{
    match extra {
        Some(s) => match shlex_split(s.as_str()) {
            Some(words) => Ok(words),
            None => Err(CommandError::BadArguments { tool: String::from_str(tool) }),
        },
        None => {
            let words: Vec<String> = Vec::new();
            proof {
                assert(texts(words@) =~= Seq::<Seq<char>>::empty());
            }
            Ok(words)
        },
    }
}

/// Appends the text `s` to `out`.
pub fn push_text(out: &mut Vec<String>, s: &str)
    ensures
        texts(final(out)@) == texts(old(out)@).push(s@),
{
    out.push(String::from_str(s));
    proof {
        assert(texts(out@) =~= texts(old(out)@).push(s@));
    }
}

/// Appends copies of the texts of `more` to `out`.
pub fn push_texts(out: &mut Vec<String>, more: &Vec<String>)
    ensures
        texts(final(out)@) == texts(old(out)@) + texts(more@),
{
    let ghost before = texts(out@);
    let mut i: usize = 0;
    proof {
        assert(before + texts(more@).take(0) =~= before);
    }
    while i < more.len()
        invariant
            i <= more.len(),
            texts(out@) == before + texts(more@).take(i as int),
        decreases more.len() - i,
    {
        let ghost prev = out@;
        out.push(more[i].clone());
        proof {
            assert(texts(out@) =~= texts(prev).push(more@[i as int]@));
            assert(texts(more@).take(i + 1) =~= texts(more@).take(i as int).push(more@[i as int]@));
            assert((before + texts(more@).take(i as int)).push(more@[i as int]@) =~= before + texts(more@).take(i + 1));
        }
        i += 1;
    }
    proof {
        assert(texts(more@).take(more@.len() as int) =~= texts(more@));
    }
}

/// What is said to the user of a command that could not be run.
pub open spec fn command_error_text(e: CommandError) -> Seq<char> {
    match e {
        CommandError::BadArguments { tool } => "Failed to parse "@ + tool@ + " args"@,
    }
}

impl CommandError {
    /// What is said to the user.
    pub fn to_string(&self) -> (r: String)
        ensures
            r@ == command_error_text(*self),
    {
        match self {
            CommandError::BadArguments { tool } => {
                let mut out = String::from_str("Failed to parse ");
                out.append(tool.as_str());
                out.append(" args");
                out
            },
        }
    }
}

} // verus!
