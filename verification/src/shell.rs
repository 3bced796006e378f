//! The shell session: the line being composed, the bytes of an unfinished
//! character, the names known for completion, and the text that waits to be
//! written to the terminal. The caller reads the terminal, hands each chunk
//! of bytes to [`Shell::process`], writes out what the session collected,
//! and runs the plan that comes back.
use vstd::prelude::*;
use vstd::utf8::{decode_utf8, decode_utf8_encode_utf8, encode_utf8, valid_utf8};
use crate::editor::{press_all, pressed_all, LineView, Stop};
use crate::redirect::{message_text, plan_of, resolve, ParseError, Plan, PlanView};
use crate::text::{append, append_bytes, bytes_from, push_str, text_view, words_view};
use crate::tokenizer::{balanced, quotes_closed, split_input, tokens};

verus! {

/// Whether `n` is the length of the longest prefix of `bytes` that is valid
/// UTF-8.
pub open spec fn is_valid_up_to(bytes: Seq<u8>, n: int) -> bool {
    &&& 0 <= n <= bytes.len()
    &&& valid_utf8(bytes.take(n))
    &&& forall|j: int| n < j <= bytes.len() ==> !valid_utf8(#[trigger] bytes.take(j))
}

/// The length of the longest prefix of `bytes` that is valid UTF-8.
pub open spec fn valid_up_to(bytes: Seq<u8>) -> int {
    choose|n: int| is_valid_up_to(bytes, n)
}

/// Only one length is that of the longest valid prefix.
pub proof fn lemma_valid_up_to(bytes: Seq<u8>, n: int)
    requires
        is_valid_up_to(bytes, n),
    ensures
        valid_up_to(bytes) == n,
{
    let m = valid_up_to(bytes);
    assert(is_valid_up_to(bytes, m));
    if n < m {
        assert(!valid_utf8(bytes.take(m)));
    }
    if m < n {
        assert(!valid_utf8(bytes.take(n)));
    }
}

/// Among the prefixes of `bytes` of length `k` or less, one is the longest
/// that is valid UTF-8, provided that no longer one is valid.
proof fn lemma_longest_below(bytes: Seq<u8>, k: int)
    requires
        0 <= k <= bytes.len(),
        forall|j: int| k < j <= bytes.len() ==> !valid_utf8(#[trigger] bytes.take(j)),
    ensures
        exists|n: int| is_valid_up_to(bytes, n),
    decreases k,
{
    if valid_utf8(bytes.take(k)) {
        assert(is_valid_up_to(bytes, k));
    } else {
        if k == 0 {
            assert(bytes.take(0).len() == 0);
        } else {
            lemma_longest_below(bytes, k - 1);
        }
    }
}

/// Every sequence of bytes has a longest prefix that is valid UTF-8, and
/// [`valid_up_to`] is its length.
pub proof fn lemma_valid_up_to_exists(bytes: Seq<u8>)
    ensures
        is_valid_up_to(bytes, valid_up_to(bytes)),
{
    lemma_longest_below(bytes, bytes.len() as int);
}

/// Decodes the longest prefix of `bytes` that is valid UTF-8, with
/// `std::str::from_utf8`, and returns its characters and its length in
/// bytes. Trusted: that the length is the largest at which the prefix is
/// valid, as the documentation of `Utf8Error::valid_up_to` says, and that
/// the characters are those that the prefix encodes.
#[verifier::external_body]
fn decode_prefix(bytes: &[u8]) -> (r: (Vec<char>, usize))
    ensures
        is_valid_up_to(bytes@, r.1 as int),
        r.0@ == decode_utf8(bytes@.take(r.1 as int)),
{
    match std::str::from_utf8(bytes) {
        Ok(text) => (text.chars().collect(), bytes.len()),
        Err(e) => {
            let n = e.valid_up_to();
            (std::str::from_utf8(&bytes[..n]).unwrap_or_default().chars().collect(), n)
        },
    }
}

/// A shell session.
pub struct Shell {
    /// The line that is being composed.
    pub payload: Vec<char>,
    /// The names of the programs that were found, for completion.
    pub executables: Vec<Vec<char>>,
    /// The bytes at the end of the last chunk that did not decode.
    pub carry: Vec<u8>,
    /// The list of names that a second tab would print, if one is armed.
    pub listing: Option<Vec<char>>,
    /// The text that waits to be written to the output stream.
    pub stdout: Vec<char>,
    /// The text that waits to be written to the error stream.
    pub stderr: Vec<char>,
}

/// The mathematical value of a [`Shell`].
pub struct ShellView {
    pub payload: Seq<char>,
    pub executables: Seq<Seq<char>>,
    pub carry: Seq<u8>,
    pub listing: Option<Seq<char>>,
    pub stdout: Seq<char>,
    pub stderr: Seq<char>,
}

impl View for Shell {
    type V = ShellView;

    open spec fn view(&self) -> ShellView {
        ShellView {
            payload: self.payload@,
            executables: words_view(self.executables@),
            carry: self.carry@,
            listing: text_view(self.listing),
            stdout: self.stdout@,
            stderr: self.stderr@,
        }
    }
}

/// How reading a chunk ends.
#[derive(Debug, PartialEq, Eq)]
pub enum Reading {
    /// The line is not complete: the next chunk is wanted.
    More,
    /// The line is complete.
    Line(Vec<char>),
    /// No line comes: the input ended, or a list of names was printed.
    Ended,
}

/// The mathematical value of a [`Reading`].
pub enum ReadingView {
    More,
    Line(Seq<char>),
    Ended,
}

impl View for Reading {
    type V = ReadingView;

    open spec fn view(&self) -> ReadingView {
        match self {
            Reading::More => ReadingView::More,
            Reading::Line(text) => ReadingView::Line(text@),
            Reading::Ended => ReadingView::Ended,
        }
    }
}

/// What the caller does after a chunk was processed.
#[derive(Debug, PartialEq, Eq)]
pub enum Step {
    /// Read the next chunk and process it.
    Read,
    /// Nothing is run; the line ends with this status.
    Done(i32),
    /// Run this plan.
    Run(Plan),
}

/// The mathematical value of a [`Step`].
pub enum StepView {
    Read,
    Done(int),
    Run(PlanView),
}

impl View for Step {
    type V = StepView;

    open spec fn view(&self) -> StepView {
        match self {
            Step::Read => StepView::Read,
            Step::Done(status) => StepView::Done(*status as int),
            Step::Run(plan) => StepView::Run(plan@),
        }
    }
}

/// The session at the start: nothing typed, nothing waiting.
pub open spec fn fresh(executables: Seq<Seq<char>>) -> ShellView {
    ShellView {
        payload: Seq::empty(),
        executables,
        carry: Seq::empty(),
        listing: None,
        stdout: Seq::empty(),
        stderr: Seq::empty(),
    }
}

/// The session after the chunk `chunk`, and how the reading ends.
///
/// An empty chunk is the end of the input. Otherwise the bytes carried over
/// come first, the longest valid prefix of the whole is decoded, and its
/// characters go to the editor one by one. If the editor does not stop, the
/// bytes that did not decode are carried over. If it does, the rest of the
/// chunk is dropped, nothing is carried over and no list stays armed; a
/// submitted line leaves the payload empty.
pub open spec fn read(s: ShellView, chunk: Seq<u8>) -> (ShellView, ReadingView) {
    if chunk.len() == 0 {
        (ShellView { carry: Seq::empty(), listing: None, ..s }, ReadingView::Ended)
    } else {
        let buffer = s.carry + chunk;
        let n = valid_up_to(buffer);
        let keys = decode_utf8(buffer.take(n));
        let (line, stop) = pressed_all(
            LineView { payload: s.payload, listing: s.listing, echo: s.stdout },
            keys,
            s.executables,
        );
        match stop {
            None => (
                ShellView {
                    payload: line.payload,
                    listing: line.listing,
                    stdout: line.echo,
                    carry: buffer.skip(n),
                    ..s
                },
                ReadingView::More,
            ),
            Some(Stop::Submit) => (
                ShellView {
                    payload: Seq::empty(),
                    listing: None,
                    stdout: line.echo,
                    carry: Seq::empty(),
                    ..s
                },
                ReadingView::Line(line.payload),
            ),
            Some(Stop::Listed) => (
                ShellView {
                    payload: line.payload,
                    listing: None,
                    stdout: line.echo,
                    carry: Seq::empty(),
                    ..s
                },
                ReadingView::Ended,
            ),
        }
    }
}

/// What follows from a submitted line: nothing for a line without words,
/// the plan of its words, or status 1 and the error's text on the error
/// stream where the words have no plan.
pub open spec fn dispatched(s: ShellView, line: Seq<char>) -> (ShellView, StepView) {
    let words = tokens(line);
    if words.len() == 0 {
        (s, StepView::Done(0))
    } else {
        match plan_of(words) {
            Ok(plan) => (s, StepView::Run(plan)),
            Err(e) => (ShellView { stderr: s.stderr + message_text(e), ..s }, StepView::Done(1)),
        }
    }
}

/// The session after the chunk `chunk`, and what the caller does next.
pub open spec fn processed(s: ShellView, chunk: Seq<u8>) -> (ShellView, StepView) {
    let (next, reading) = read(s, chunk);
    match reading {
        ReadingView::More => (next, StepView::Read),
        ReadingView::Ended => (next, StepView::Done(0)),
        ReadingView::Line(line) => dispatched(next, line),
    }
}

/// While a line is being read no byte is lost: the bytes carried over and
/// the chunk are, in this order, the encoding of the characters that went
/// to the editor and then the bytes that are carried over next.
pub proof fn lemma_read_keeps_bytes(s: ShellView, chunk: Seq<u8>)
    requires
        read(s, chunk).1 is More,
    ensures
        ({
            let buffer = s.carry + chunk;
            let keys = decode_utf8(buffer.take(valid_up_to(buffer)));
            encode_utf8(keys) + read(s, chunk).0.carry == buffer
        }),
{
    let buffer = s.carry + chunk;
    let n = valid_up_to(buffer);
    lemma_valid_up_to_exists(buffer);
    decode_utf8_encode_utf8(buffer.take(n));
    assert(buffer.take(n) + buffer.skip(n) =~= buffer);
}

/// A session at its start, with the names of the programs that were found.
pub fn new(executables: Vec<Vec<char>>) -> (shell: Shell)
    ensures
        shell@ == fresh(words_view(executables@)),
{
    Shell {
        payload: Vec::new(),
        executables,
        carry: Vec::new(),
        listing: None,
        stdout: Vec::new(),
        stderr: Vec::new(),
    }
}

impl Shell {
    /// Puts `data` at the end of the text for the error stream.
    pub fn error(&mut self, data: &[char])
        ensures
            final(self)@ == (ShellView { stderr: old(self)@.stderr + data@, ..old(self)@ }),
    {
        append(&mut self.stderr, data);
    }

    /// Puts `data` at the end of the text for the output stream.
    pub fn output(&mut self, data: &[char])
        ensures
            final(self)@ == (ShellView { stdout: old(self)@.stdout + data@, ..old(self)@ }),
    {
        append(&mut self.stdout, data);
    }

    /// Hands out the text for the output stream and leaves none waiting.
    pub fn take_output(&mut self) -> (text: Vec<char>)
        ensures
            text@ == old(self)@.stdout,
            final(self)@ == (ShellView { stdout: Seq::empty(), ..old(self)@ }),
    {
        let mut text: Vec<char> = Vec::new();
        std::mem::swap(&mut self.stdout, &mut text);
        text
    }

    /// Hands out the text for the error stream and leaves none waiting.
    pub fn take_errors(&mut self) -> (text: Vec<char>)
        ensures
            text@ == old(self)@.stderr,
            final(self)@ == (ShellView { stderr: Seq::empty(), ..old(self)@ }),
    {
        let mut text: Vec<char> = Vec::new();
        std::mem::swap(&mut self.stderr, &mut text);
        text
    }

    /// Writes the prompt: a dollar sign and a space, then the payload typed
    /// so far.
    pub fn prompt(&mut self)
        ensures
            final(self)@ == (ShellView {
                stdout: old(self)@.stdout + seq!['$', ' '] + old(self)@.payload,
                ..old(self)@
            }),
    {
        self.stdout.push('$');
        self.stdout.push(' ');
        append(&mut self.stdout, self.payload.as_slice());
        proof {
            assert(self.stdout@ =~= old(self)@.stdout + seq!['$', ' '] + old(self)@.payload);
        }
    }

    /// Splits a line into its words.
    pub fn split_input(input: &[char]) -> (words: Vec<Vec<char>>)
        ensures
            words_view(words@) == tokens(input@),
    {
        split_input(input)
    }

    /// Decides whether every quote opened in the payload is closed again.
    pub fn quotes_closed(&self) -> (r: bool)
        ensures
            r == balanced(self@.payload),
    {
        quotes_closed(self.payload.as_slice())
    }

    /// Takes one chunk of bytes read from the terminal; see [`read`].
    pub fn read_input(&mut self, chunk: &[u8]) -> (reading: Reading)
        ensures
            final(self)@ == read(old(self)@, chunk@).0,
            reading@ == read(old(self)@, chunk@).1,
    {
        if chunk.len() == 0 {
            self.carry = Vec::new();
            self.listing = None;
            return Reading::Ended;
        }
        let mut buffer: Vec<u8> = Vec::new();
        std::mem::swap(&mut self.carry, &mut buffer);
        append_bytes(&mut buffer, chunk);
        let (keys, n) = decode_prefix(buffer.as_slice());
        proof {
            lemma_valid_up_to(buffer@, n as int);
        }
        let mut armed: Option<Vec<char>> = None;
        std::mem::swap(&mut self.listing, &mut armed);
        let (next, stop) = press_all(
            &mut self.payload,
            armed,
            &mut self.stdout,
            &self.executables,
            keys.as_slice(),
        );
        match stop {
            None => {
                self.listing = next;
                self.carry = bytes_from(buffer.as_slice(), n);
                Reading::More
            },
            Some(Stop::Submit) => {
                let mut line: Vec<char> = Vec::new();
                std::mem::swap(&mut self.payload, &mut line);
                Reading::Line(line)
            },
            Some(Stop::Listed) => Reading::Ended,
        }
    }

    /// What follows from the submitted line `line`; see [`dispatched`].
    pub fn dispatch(&mut self, line: &[char]) -> (step: Step)
        ensures
            final(self)@ == dispatched(old(self)@, line@).0,
            step@ == dispatched(old(self)@, line@).1,
    {
        let words = split_input(line);
        if words.len() == 0 {
            return Step::Done(0);
        }
        match resolve(&words) {
            Ok(plan) => Step::Run(plan),
            Err(e) => {
                push_str(&mut self.stderr, e.message());
                Step::Done(1)
            },
        }
    }

    /// Takes one chunk of bytes read from the terminal and says what the
    /// caller does next; see [`processed`].
    pub fn process(&mut self, chunk: &[u8]) -> (step: Step)
        ensures
            final(self)@ == processed(old(self)@, chunk@).0,
            step@ == processed(old(self)@, chunk@).1,
    {
        match self.read_input(chunk) {
            Reading::More => Step::Read,
            Reading::Ended => Step::Done(0),
            Reading::Line(line) => self.dispatch(line.as_slice()),
        }
    }
}

} // verus!
