//! Turning the words of a command line into an execution plan: the command,
//! its arguments, and where its output and error streams go.
use vstd::prelude::*;
use crate::text::{copy, copy_from, find_first, first_index, lemma_first_index, words_view};

verus! {

/// Where a stream of the command goes.
#[derive(Debug, PartialEq, Eq)]
pub enum Target {
    /// The shell's own output stream.
    Stdout,
    /// The shell's own error stream.
    Stderr,
    /// The file at this path.
    File(Vec<char>),
}

/// The mathematical value of a [`Target`].
pub enum TargetView {
    Stdout,
    Stderr,
    File(Seq<char>),
}

impl View for Target {
    type V = TargetView;

    open spec fn view(&self) -> TargetView {
        match self {
            Target::Stdout => TargetView::Stdout,
            Target::Stderr => TargetView::Stderr,
            Target::File(path) => TargetView::File(path@),
        }
    }
}

impl Target {
    /// A target equal to this one.
    pub fn duplicate(&self) -> (r: Target)
        ensures
            r@ == self@,
    {
        match self {
            Target::Stdout => Target::Stdout,
            Target::Stderr => Target::Stderr,
            Target::File(path) => Target::File(copy(path.as_slice())),
        }
    }
}

/// Why a command line has no plan.
#[derive(Clone, Copy, Debug, PartialEq, Eq)]
pub enum ParseError {
    /// A redirection stands last and names no target.
    MissingTarget,
    /// A redirection names a descriptor other than 1 or 2 after `&`.
    BadDescriptor,
}

/// The text that the shell reports for the error `e`.
pub open spec fn message_text(e: ParseError) -> Seq<char> {
    match e {
        ParseError::MissingTarget =>
            "sh: Redirection expected a string, but found end of the input"@,
        ParseError::BadDescriptor => "sh: Bad file descriptor"@,
    }
}

impl ParseError {
    /// The text that the shell reports for this error.
    pub fn message(&self) -> (r: &'static str)
        ensures
            r@ == message_text(*self),
    {
        match self {
            ParseError::MissingTarget =>
                "sh: Redirection expected a string, but found end of the input",
            ParseError::BadDescriptor => "sh: Bad file descriptor",
        }
    }
}

/// What to run, and where its streams go.
#[derive(Debug, PartialEq, Eq)]
pub struct Plan {
    /// The name of the command.
    pub command: Vec<char>,
    /// The arguments, without the redirections.
    pub args: Vec<Vec<char>>,
    /// Where the output stream goes.
    pub stdout: Target,
    /// Where the error stream goes.
    pub stderr: Target,
    /// Whether a file for the output stream is emptied first, not appended to.
    pub stdout_truncate: bool,
    /// Whether a file for the error stream is emptied first, not appended to.
    pub stderr_truncate: bool,
}

/// The mathematical value of a [`Plan`].
pub struct PlanView {
    pub command: Seq<char>,
    pub args: Seq<Seq<char>>,
    pub stdout: TargetView,
    pub stderr: TargetView,
    pub stdout_truncate: bool,
    pub stderr_truncate: bool,
}

impl View for Plan {
    type V = PlanView;

    open spec fn view(&self) -> PlanView {
        PlanView {
            command: self.command@,
            args: words_view(self.args@),
            stdout: self.stdout@,
            stderr: self.stderr@,
            stdout_truncate: self.stdout_truncate,
            stderr_truncate: self.stderr_truncate,
        }
    }
}

/// The plan of a command without arguments or redirections: each stream goes
/// to the shell's own, and both modes are truncate.
pub open spec fn bare_plan(command: Seq<char>) -> PlanView {
    PlanView {
        command,
        args: Seq::empty(),
        stdout: TargetView::Stdout,
        stderr: TargetView::Stderr,
        stdout_truncate: true,
        stderr_truncate: true,
    }
}

/// Whether `s` is the one character `c`.
pub open spec fn is_single(s: Seq<char>, c: char) -> bool {
    s.len() == 1 && s[0] == c
}

/// The plan after one redirection of the stream named by `from` to `to`.
///
/// An empty `from` names the output stream. A `from` other than `1` or `2`
/// leaves the plan as it is. The mode of the stream is set first. Then `&1`
/// and `&2` give the stream the target that the other stream has at that
/// moment (or leave it, where a stream is directed to itself), any other
/// `&..` is an error, and everything else is the path of a file.
pub open spec fn redirect(plan: PlanView, from: Seq<char>, to: Seq<char>, append: bool) -> Result<
    PlanView,
    ParseError,
> {
    let out = from.len() == 0 || is_single(from, '1');
    if !out && !is_single(from, '2') {
        Ok(plan)
    } else {
        let moded = if out {
            PlanView { stdout_truncate: !append, ..plan }
        } else {
            PlanView { stderr_truncate: !append, ..plan }
        };
        if to.len() > 0 && to[0] == '&' {
            if is_single(to.skip(1), '1') {
                Ok(if out { moded } else { PlanView { stderr: moded.stdout, ..moded } })
            } else if is_single(to.skip(1), '2') {
                Ok(if out { PlanView { stdout: moded.stderr, ..moded } } else { moded })
            } else {
                Err(ParseError::BadDescriptor)
            }
        } else if out {
            Ok(PlanView { stdout: TargetView::File(to), ..moded })
        } else {
            Ok(PlanView { stderr: TargetView::File(to), ..moded })
        }
    }
}

/// The plan after the words `rest`, starting from `plan`.
///
/// A word without `>` is an argument. Any other word is split at its first
/// `>`; a second `>` right after it asks for append mode. What is left of the
/// word after that is the target; where it is empty, the next word is the
/// target, and its absence is an error.
pub open spec fn resolve_from(plan: PlanView, rest: Seq<Seq<char>>) -> Result<PlanView, ParseError>
    decreases rest.len(),
{
    if rest.len() == 0 {
        Ok(plan)
    } else {
        let word = rest[0];
        let k = first_index(word, '>');
        if k == word.len() {
            resolve_from(PlanView { args: plan.args.push(word), ..plan }, rest.skip(1))
        } else {
            let append = k + 1 < word.len() && word[k + 1] == '>';
            let start = if append { k + 2 } else { k + 1 };
            let inline = start < word.len();
            if !inline && rest.len() == 1 {
                Err(ParseError::MissingTarget)
            } else {
                let to = if inline { word.skip(start) } else { rest[1] };
                let used: int = if inline { 1 } else { 2 };
                match redirect(plan, word.take(k), to, append) {
                    Ok(next) => resolve_from(next, rest.skip(used)),
                    Err(e) => Err(e),
                }
            }
        }
    }
}

/// The plan of a command line given by its words, the first of which is the
/// command's name.
pub open spec fn plan_of(words: Seq<Seq<char>>) -> Result<PlanView, ParseError>
    recommends
        words.len() > 0,
{
    resolve_from(bare_plan(words[0]), words.skip(1))
}

/// Words without `>` are arguments and nothing else: they join the plan's
/// arguments in their order, and the streams and modes stay as they are.
pub proof fn lemma_plain_words_are_arguments(plan: PlanView, rest: Seq<Seq<char>>)
    requires
        forall|i: int| 0 <= i < rest.len() ==> !(#[trigger] rest[i]).contains('>'),
    ensures
        resolve_from(plan, rest) == Ok::<PlanView, ParseError>(
            PlanView { args: plan.args + rest, ..plan },
        ),
    decreases rest.len(),
{
    if rest.len() == 0 {
        assert(plan.args + rest =~= plan.args);
    } else {
        let word = rest[0];
        lemma_first_index(word, '>');
        if first_index(word, '>') < word.len() {
            assert(word.contains('>'));
        }
        let next = PlanView { args: plan.args.push(word), ..plan };
        assert forall|i: int| 0 <= i < rest.skip(1).len() implies !(#[trigger] rest.skip(
            1,
        )[i]).contains('>') by {
            assert(rest.skip(1)[i] == rest[i + 1]);
        }
        lemma_plain_words_are_arguments(next, rest.skip(1));
        assert(next.args + rest.skip(1) =~= plan.args + rest);
    }
}

/// A redirection that stands last and names no target has no plan, whatever
/// stream it names.
pub proof fn lemma_missing_target(plan: PlanView, word: Seq<char>)
    requires
        word.len() > 0,
        forall|i: int| 0 <= i < word.len() - 1 ==> word[i] != '>',
        word.last() == '>',
    ensures
        resolve_from(plan, seq![word]) == Err::<PlanView, ParseError>(ParseError::MissingTarget),
{
    lemma_first_index(word, '>');
    assert(first_index(word, '>') == word.len() - 1);
    assert(seq![word][0] == word);
}

/// Applies one redirection to `plan`; see [`redirect`].
fn apply_redirect(plan: &mut Plan, from: &[char], to: Vec<char>, append: bool) -> (r: Result<
    (),
    ParseError,
>)
    ensures
        match redirect(old(plan)@, from@, to@, append) {
            Ok(next) => r is Ok && final(plan)@ == next,
            Err(e) => r == Err::<(), ParseError>(e),
        },
{
    let out = from.len() == 0 || (from.len() == 1 && from[0] == '1');
    if !out && !(from.len() == 1 && from[0] == '2') {
        return Ok(());
    }
    if out {
        plan.stdout_truncate = !append;
    } else {
        plan.stderr_truncate = !append;
    }
    if to.len() > 0 && to[0] == '&' {
        if to.len() == 2 && to[1] == '1' {
            if !out {
                plan.stderr = plan.stdout.duplicate();
            }
            Ok(())
        } else if to.len() == 2 && to[1] == '2' {
            if out {
                plan.stdout = plan.stderr.duplicate();
            }
            Ok(())
        } else {
            Err(ParseError::BadDescriptor)
        }
    } else {
        if out {
            plan.stdout = Target::File(to);
        } else {
            plan.stderr = Target::File(to);
        }
        Ok(())
    }
}

/// Builds the plan of a command line from its words.
pub fn resolve(words: &Vec<Vec<char>>) -> (r: Result<Plan, ParseError>)
    requires
        words@.len() > 0,
    ensures
        match plan_of(words_view(words@)) {
            Ok(plan) => r is Ok && r->Ok_0@ == plan,
            Err(e) => r == Err::<Plan, ParseError>(e),
        },
{
    let ghost all = words_view(words@);
    let mut plan = Plan {
        command: copy(words[0].as_slice()),
        args: Vec::new(),
        stdout: Target::Stdout,
        stderr: Target::Stderr,
        stdout_truncate: true,
        stderr_truncate: true,
    };
    proof {
        assert(plan@.args =~= Seq::empty());
    }
    let mut i: usize = 1;
    while i < words.len()
        invariant
            1 <= i <= words.len(),
            all == words_view(words@),
            resolve_from(plan@, all.skip(i as int)) == plan_of(all),
        decreases words.len() - i,
    {
        let word = words[i].as_slice();
        let ghost rest = all.skip(i as int);
        let ghost before = plan@;
        proof {
            assert(rest[0] == word@);
            assert(rest.skip(1) =~= all.skip(i + 1));
            lemma_first_index(word@, '>');
        }
        let k = find_first(word, '>');
        if k == word.len() {
            plan.args.push(copy(word));
            proof {
                assert(plan@.args =~= before.args.push(word@));
            }
            i = i + 1;
        } else {
            let append = k + 1 < word.len() && word[k + 1] == '>';
            let start: usize = if append { k + 2 } else { k + 1 };
            let inline = start < word.len();
            if !inline && i + 1 == words.len() {
                return Err(ParseError::MissingTarget);
            }
            let to = if inline { copy_from(word, start) } else { copy(words[i + 1].as_slice()) };
            let used: usize = if inline { 1 } else { 2 };
            proof {
                if !inline {
                    assert(rest[1] == words@[i + 1]@);
                    assert(rest.skip(2) =~= all.skip(i + 2));
                }
            }
            let from = vstd::slice::slice_subrange(word, 0, k);
            proof {
                assert(from@ =~= word@.take(k as int));
            }
            match apply_redirect(&mut plan, from, to, append) {
                Ok(()) => {},
                Err(e) => {
                    return Err(e);
                },
            }
            i = i + used;
        }
    }
    proof {
        assert(all.skip(i as int).len() == 0);
    }
    Ok(plan)
}

} // verus!
