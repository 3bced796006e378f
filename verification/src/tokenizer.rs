//! Splitting a line into words, with single quotes, double quotes and
//! backslash escapes, and the quote-balance check that shares its automaton.
use vstd::prelude::*;
use crate::text::words_view;

verus! {

/// The state of the scan after some prefix of a line.
pub struct Scan {
    /// A backslash was read and waits for the character it escapes.
    pub escape: bool,
    /// The scan is inside single quotes.
    pub single: bool,
    /// The scan is inside double quotes.
    pub double: bool,
    /// The characters of the word that is being read.
    pub word: Seq<char>,
    /// The words that were finished, in order.
    pub words: Seq<Seq<char>>,
}

/// The state before any character is read.
pub open spec fn scan_start() -> Scan {
    Scan { escape: false, single: false, double: false, word: Seq::empty(), words: Seq::empty() }
}

/// The state after reading `c` in state `s`.
///
/// A backslash that is not itself escaped is a plain character inside single
/// quotes and arms the escape elsewhere. An escaped character keeps its
/// backslash only inside double quotes, and there only if it is neither a
/// backslash nor a double quote. A quote character toggles its own kind of
/// quoting unless the other kind is open. A space outside quotes ends the
/// current word, if there is one. Everything else joins the current word.
pub open spec fn scan_step(s: Scan, c: char) -> Scan {
    if c == '\\' && !s.escape {
        if s.single {
            Scan { word: s.word.push(c), ..s }
        } else {
            Scan { escape: true, ..s }
        }
    } else if s.escape {
        if s.double && c != '\\' && c != '"' {
            Scan { escape: false, word: s.word.push('\\').push(c), ..s }
        } else {
            Scan { escape: false, word: s.word.push(c), ..s }
        }
    } else if c == '"' && !s.single {
        Scan { double: !s.double, ..s }
    } else if c == '\'' && !s.double {
        Scan { single: !s.single, ..s }
    } else if c == ' ' && !s.single && !s.double {
        if s.word.len() > 0 {
            Scan { word: Seq::empty(), words: s.words.push(s.word), ..s }
        } else {
            s
        }
    } else {
        Scan { word: s.word.push(c), ..s }
    }
}

/// The state after reading all of `input`, starting in state `s`.
pub open spec fn scan_from(s: Scan, input: Seq<char>) -> Scan
    decreases input.len(),
{
    if input.len() == 0 {
        s
    } else {
        scan_step(scan_from(s, input.drop_last()), input.last())
    }
}

/// The state after reading all of `input` from the start.
pub open spec fn scan(input: Seq<char>) -> Scan {
    scan_from(scan_start(), input)
}

/// The words of `input`: the finished words, then the last one if it is not
/// empty.
pub open spec fn tokens(input: Seq<char>) -> Seq<Seq<char>> {
    let s = scan(input);
    if s.word.len() > 0 {
        s.words.push(s.word)
    } else {
        s.words
    }
}

/// Whether no quote is open at the end of `input`.
pub open spec fn balanced(input: Seq<char>) -> bool {
    !scan(input).single && !scan(input).double
}

/// Splits a line into its words.
pub fn split_input(input: &[char]) -> (out: Vec<Vec<char>>)
    ensures
        words_view(out@) == tokens(input@),
{
    let mut escape = false;
    let mut single = false;
    let mut double = false;
    let mut word: Vec<char> = Vec::new();
    let mut out: Vec<Vec<char>> = Vec::new();
    let mut i: usize = 0;
    while i < input.len()
        invariant
            i <= input.len(),
            scan(input@.take(i as int)).escape == escape,
            scan(input@.take(i as int)).single == single,
            scan(input@.take(i as int)).double == double,
            scan(input@.take(i as int)).word =~= word@,
            scan(input@.take(i as int)).words =~= words_view(out@),
        decreases input.len() - i,
    {
        let c = input[i];
        proof {
            assert(input@.take(i + 1).drop_last() =~= input@.take(i as int));
        }
        let ghost before = words_view(out@);
        if c == '\\' && !escape {
            if single {
                word.push(c);
            } else {
                escape = true;
            }
        } else if escape {
            if double && c != '\\' && c != '"' {
                word.push('\\');
            }
            word.push(c);
            escape = false;
        } else if c == '"' && !single {
            double = !double;
        } else if c == '\'' && !double {
            single = !single;
        } else if c == ' ' && !single && !double {
            if word.len() > 0 {
                let ghost w = word@;
                out.push(word);
                word = Vec::new();
                proof {
                    assert(words_view(out@) =~= before.push(w));
                }
            }
        } else {
            word.push(c);
        }
        i = i + 1;
    }
    proof {
        assert(input@.take(i as int) =~= input@);
    }
    if word.len() > 0 {
        let ghost before = words_view(out@);
        let ghost w = word@;
        out.push(word);
        proof {
            assert(words_view(out@) =~= before.push(w));
        }
    }
    out
}

/// Decides whether every quote opened in `input` is closed again.
pub fn quotes_closed(input: &[char]) -> (r: bool)
    ensures
        r == balanced(input@),
{
    let mut escape = false;
    let mut single = false;
    let mut double = false;
    let mut i: usize = 0;
    while i < input.len()
        invariant
            i <= input.len(),
            scan(input@.take(i as int)).escape == escape,
            scan(input@.take(i as int)).single == single,
            scan(input@.take(i as int)).double == double,
        decreases input.len() - i,
    {
        let c = input[i];
        proof {
            assert(input@.take(i + 1).drop_last() =~= input@.take(i as int));
        }
        if c == '\\' && !escape {
            if !single {
                escape = true;
            }
        } else if escape {
            escape = false;
        } else if c == '"' && !single {
            double = !double;
        } else if c == '\'' && !double {
            single = !single;
        }
        i = i + 1;
    }
    proof {
        assert(input@.take(i as int) =~= input@);
    }
    !single && !double
}

/// Inside single quotes nothing but a single quote changes the quoting:
/// after an opening single quote and any text without one, the scan is
/// inside single quotes, outside double quotes, and no escape is pending.
pub proof fn lemma_inside_single(body: Seq<char>)
    requires
        !body.contains('\''),
    ensures
        scan(seq!['\''] + body).single,
        !scan(seq!['\''] + body).double,
        !scan(seq!['\''] + body).escape,
    decreases body.len(),
{
    let open = seq!['\''];
    if body.len() == 0 {
        assert(open + body =~= open);
        assert(open.drop_last() =~= Seq::<char>::empty());
        assert(scan(open) == scan_step(scan(Seq::<char>::empty()), '\''));
    } else {
        assert forall|c: char| body.drop_last().contains(c) implies body.contains(c) by {
            let k = choose|k: int| 0 <= k < body.drop_last().len() && body.drop_last()[k] == c;
            assert(body[k] == c);
        }
        lemma_inside_single(body.drop_last());
        assert((open + body).drop_last() =~= open + body.drop_last());
        assert((open + body).last() == body.last());
        assert(body.contains(body.last()));
    }
}

/// Inside double quotes, text without a double quote and without a
/// backslash does not change the quoting.
pub proof fn lemma_inside_double(body: Seq<char>)
    requires
        !body.contains('"'),
        !body.contains('\\'),
    ensures
        scan(seq!['"'] + body).double,
        !scan(seq!['"'] + body).single,
        !scan(seq!['"'] + body).escape,
    decreases body.len(),
{
    let open = seq!['"'];
    if body.len() == 0 {
        assert(open + body =~= open);
        assert(open.drop_last() =~= Seq::<char>::empty());
        assert(scan(open) == scan_step(scan(Seq::<char>::empty()), '"'));
    } else {
        assert forall|c: char| body.drop_last().contains(c) implies body.contains(c) by {
            let k = choose|k: int| 0 <= k < body.drop_last().len() && body.drop_last()[k] == c;
            assert(body[k] == c);
        }
        lemma_inside_double(body.drop_last());
        assert((open + body).drop_last() =~= open + body.drop_last());
        assert((open + body).last() == body.last());
        assert(body.contains(body.last()));
    }
}

/// A single-quoted string is balanced just when its closing quote is there:
/// for any text without a single quote, double quotes and backslashes
/// included, the text between two single quotes is balanced and the text
/// after only the opening one is not.
pub proof fn lemma_single_quoted(body: Seq<char>)
    requires
        !body.contains('\''),
    ensures
        balanced(seq!['\''] + body + seq!['\'']),
        !balanced(seq!['\''] + body),
{
    lemma_inside_single(body);
    let whole = seq!['\''] + body + seq!['\''];
    assert(whole.drop_last() =~= seq!['\''] + body);
    assert(whole.last() == '\'');
}

/// A double-quoted string is balanced just when its closing quote is there:
/// for any text without a double quote or a backslash, single quotes
/// included, the text between two double quotes is balanced and the text
/// after only the opening one is not.
pub proof fn lemma_double_quoted(body: Seq<char>)
    requires
        !body.contains('"'),
        !body.contains('\\'),
    ensures
        balanced(seq!['"'] + body + seq!['"']),
        !balanced(seq!['"'] + body),
{
    lemma_inside_double(body);
    let whole = seq!['"'] + body + seq!['"'];
    assert(whole.drop_last() =~= seq!['"'] + body);
    assert(whole.last() == '"');
}

/// How often `c` occurs in `s`.
pub open spec fn count(s: Seq<char>, c: char) -> nat
    decreases s.len(),
{
    if s.len() == 0 {
        0
    } else {
        count(s.drop_last(), c) + if s.last() == c {
            1nat
        } else {
            0nat
        }
    }
}

/// In text without backslashes and without single quotes, the scan is
/// inside double quotes just after an odd number of them: such text is
/// balanced if and only if its double quotes come in pairs.
pub proof fn lemma_double_quotes_pair(s: Seq<char>)
    requires
        !s.contains('\\'),
        !s.contains('\''),
    ensures
        !scan(s).escape,
        !scan(s).single,
        scan(s).double <==> count(s, '"') % 2 == 1,
        balanced(s) <==> count(s, '"') % 2 == 0,
    decreases s.len(),
{
    if s.len() > 0 {
        assert forall|c: char| s.drop_last().contains(c) implies s.contains(c) by {
            let k = choose|k: int| 0 <= k < s.drop_last().len() && s.drop_last()[k] == c;
            assert(s[k] == c);
        }
        lemma_double_quotes_pair(s.drop_last());
        assert(s.contains(s.last()));
    }
}

/// In text without backslashes and without double quotes, the scan is
/// inside single quotes just after an odd number of them: such text is
/// balanced if and only if its single quotes come in pairs.
pub proof fn lemma_single_quotes_pair(s: Seq<char>)
    requires
        !s.contains('\\'),
        !s.contains('"'),
    ensures
        !scan(s).escape,
        !scan(s).double,
        scan(s).single <==> count(s, '\'') % 2 == 1,
        balanced(s) <==> count(s, '\'') % 2 == 0,
    decreases s.len(),
{
    if s.len() > 0 {
        assert forall|c: char| s.drop_last().contains(c) implies s.contains(c) by {
            let k = choose|k: int| 0 <= k < s.drop_last().len() && s.drop_last()[k] == c;
            assert(s[k] == c);
        }
        lemma_single_quotes_pair(s.drop_last());
        assert(s.contains(s.last()));
    }
}

} // verus!
