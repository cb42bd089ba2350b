//! Wording of the report on a failed call.

use vstd::prelude::*;
use vstd::string::StringExecFns;

verus! {

/// What follows the name of the failed method in the first line.
pub open spec fn failed_infix() -> Seq<char> {
    "() failed: "@
}

/// What stands before each cause.
pub open spec fn cause_prefix() -> Seq<char> {
    "  Caused by: "@
}

/// The first line of a report: the method, then the error.
pub open spec fn headline(method_name: Seq<char>, err: Seq<char>) -> Seq<char> {
    method_name + failed_infix() + err
}

/// The line for one cause.
pub open spec fn cause_line(source: Seq<char>) -> Seq<char> {
    cause_prefix() + source
}

/// The lines of a report: the headline, then one line for every entry of
/// `sources` but the first.
pub open spec fn report(method_name: Seq<char>, err: Seq<char>, sources: Seq<Seq<char>>) -> Seq<
    Seq<char>,
> {
    if sources.len() == 0 {
        seq![headline(method_name, err)]
    } else {
        Seq::new(
            sources.len(),
            |k: int|
                if k == 0 {
                    headline(method_name, err)
                } else {
                    cause_line(sources[k])
                },
        )
    }
}

/// The text of each line.
pub open spec fn texts(lines: Seq<String>) -> Seq<Seq<char>> {
    Seq::new(lines.len(), |k: int| lines[k]@)
}

/// Words the report on a failed call of `method_name`, line by line.
///
/// `err` is the error as text. `sources` is the chain of the error and what
/// caused it, each as text and the error itself first; that first entry is
/// passed over, since the headline already names it.
pub fn log_error(method_name: &str, err: &str, sources: &Vec<String>) -> (lines: Vec<String>)
    ensures
        texts(lines@) == report(method_name@, err@, texts(sources@)),
{
    let mut lines: Vec<String> = Vec::new();
    let mut first = String::from_str(method_name);
    first.append("() failed: ");
    first.append(err);
    lines.push(first);
    let mut k: usize = 1;
    while k < sources.len()
        invariant
            1 <= k,
            k <= sources.len() || sources.len() == 0,
            lines@.len() == if sources.len() == 0 {
                1
            } else {
                k as int
            },
            lines@[0]@ == headline(method_name@, err@),
            forall|j: int|
                1 <= j < lines@.len() ==> (#[trigger] lines@[j])@ == cause_line(sources@[j]@),
        decreases sources.len() - k,
    {
        let mut line = String::from_str("  Caused by: ");
        line.append(sources[k].as_str());
        lines.push(line);
        k += 1;
    }
    assert(texts(lines@) =~= report(method_name@, err@, texts(sources@)));
    lines
}

} // verus!
