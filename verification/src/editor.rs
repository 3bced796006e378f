//! The line editor: what one typed character does to the line that is
//! being composed, and what the terminal is sent in answer.
use vstd::prelude::*;
use crate::completion::{completion_list, get_completions};
use crate::text::{
    after_last, append, char_is_control, char_width, copy_from, decimal, encoded_len,
    encoded_len_from, find_after_last, find_first, first_index, is_control, join, push_decimal,
    push_joined, text_view, utf8_len, utf8_width, words_view,
};
use crate::tokenizer::{balanced, quotes_closed};

verus! {

/// The line that is being composed, as the editor sees it.
pub struct LineView {
    /// The text typed so far.
    pub payload: Seq<char>,
    /// The list of names that a second tab would print, if one is armed.
    pub listing: Option<Seq<char>>,
    /// Everything sent to the terminal so far.
    pub echo: Seq<char>,
}

/// Why the editor stops reading.
#[derive(Clone, Copy, Debug, PartialEq, Eq)]
pub enum Stop {
    /// The line is complete and is handed over.
    Submit,
    /// The armed list of names was printed; the line stays as it is.
    Listed,
}

/// The line after `add` was put at its end and shown.
pub open spec fn typed(line: LineView, add: Seq<char>) -> LineView {
    LineView { payload: line.payload + add, echo: line.echo + add, ..line }
}

/// What completes `word` to `name`, the only match: the rest of the name
/// and a space.
pub open spec fn remainder(word: Seq<char>, name: Seq<char>) -> Seq<char> {
    if name.len() > word.len() {
        name.skip(word.len() as int).push(' ')
    } else {
        seq![' ']
    }
}

/// What completes `word` towards `name`, the longest of several matches:
/// the rest of the name up to its first `_`, or all of it and a space where
/// it holds none.
pub open spec fn partial_remainder(word: Seq<char>, name: Seq<char>) -> Seq<char> {
    if name.len() > word.len() {
        let rest = name.skip(word.len() as int);
        let k = first_index(rest, '_');
        if k < rest.len() {
            rest.take(k)
        } else {
            rest.push(' ')
        }
    } else {
        seq![' ']
    }
}

/// Whether all names of `list` take as many bytes as its first.
pub open spec fn same_length(list: Seq<Seq<char>>) -> bool {
    forall|i: int| 0 <= i < list.len() ==> utf8_len(#[trigger] list[i]) == utf8_len(list[0])
}

/// The text that lists the names: on a line of its own, two spaces between
/// each two names.
pub open spec fn listing_text(list: Seq<Seq<char>>) -> Seq<char> {
    seq!['\n'] + join(list, seq![' ', ' ']) + seq!['\n']
}

/// The word that a tab completes: what follows the last space of the
/// payload.
pub open spec fn current_word(payload: Seq<char>) -> Seq<char> {
    payload.skip(after_last(payload, ' '))
}

/// The line after a tab, with no list armed before it.
///
/// Nothing happens on an empty payload or after a space. Otherwise the
/// current word is completed: with no match the bell rings; the only match
/// is typed out; several matches of one length ring the bell and arm their
/// list; several of different lengths type out part of the longest.
pub open spec fn after_tab(line: LineView, commands: Seq<Seq<char>>) -> LineView {
    if line.payload.len() == 0 || line.payload.last() == ' ' {
        line
    } else {
        let word = current_word(line.payload);
        let list = completion_list(commands, word);
        if list.len() == 0 {
            LineView { echo: line.echo.push('\x07'), ..line }
        } else if list.len() == 1 {
            typed(line, remainder(word, list[0]))
        } else if same_length(list) {
            LineView { listing: Some(listing_text(list)), echo: line.echo.push('\x07'), ..line }
        } else {
            typed(line, partial_remainder(word, list.last()))
        }
    }
}

/// The column, counted from one and in bytes, that the cursor returns to
/// when the line break after `payload` is deleted.
pub open spec fn return_column(payload: Seq<char>) -> nat {
    let k = after_last(payload, '\n');
    if k > 0 {
        utf8_len(payload.skip(k - 1))
    } else {
        3 + utf8_len(payload)
    }
}

/// The control sequence that moves the cursor up one line and to `column`.
pub open spec fn cursor_return(column: nat) -> Seq<char> {
    seq!['\x1b', '[', 'A', '\x1b', '['] + decimal(column) + seq!['G']
}

/// The control sequence that steps back over one or two columns and erases
/// them.
pub open spec fn erase(wide: bool) -> Seq<char> {
    if wide {
        seq!['\x1b', '[', '2', 'D', '\x1b', '[', '2', 'X']
    } else {
        seq!['\x1b', '[', '1', 'D', '\x1b', '[', '1', 'X']
    }
}

/// The line after a backspace or delete.
///
/// The last character leaves the payload. For a line break the cursor
/// returns to the end of the line before; for a character of several bytes
/// two columns are erased, for any other one.
pub open spec fn after_backspace(line: LineView) -> LineView {
    if line.payload.len() == 0 {
        line
    } else {
        let c = line.payload.last();
        let rest = line.payload.drop_last();
        let sent = if c == '\n' {
            cursor_return(return_column(rest))
        } else {
            erase(utf8_width(c) > 1)
        };
        LineView { payload: rest, echo: line.echo + sent, ..line }
    }
}

/// The line after the character `c`, and whether the editor stops there.
///
/// A character that is no control code joins the payload and is shown. A
/// tab right after the tab that armed a list prints that list and stops;
/// any other character disarms it. Then a tab completes, a line break
/// submits the payload if its quotes are closed and joins it if not, a
/// backspace or delete removes a character, and other control codes do
/// nothing.
pub open spec fn pressed(line: LineView, c: char, commands: Seq<Seq<char>>) -> (
    LineView,
    Option<Stop>,
) {
    let shown = if is_control(c) {
        line
    } else {
        typed(line, seq![c])
    };
    if shown.listing is Some && c == '\t' {
        (
            LineView { listing: None, echo: shown.echo + shown.listing->Some_0, ..shown },
            Some(Stop::Listed),
        )
    } else {
        let plain = LineView { listing: None, ..shown };
        if c == '\t' {
            (after_tab(plain, commands), None)
        } else if c == '\n' {
            let sent = LineView { echo: plain.echo.push('\n'), ..plain };
            if balanced(plain.payload) {
                (sent, Some(Stop::Submit))
            } else {
                (LineView { payload: plain.payload.push('\n'), ..sent }, None)
            }
        } else if c == '\x08' || c == '\x7f' {
            (after_backspace(plain), None)
        } else {
            (plain, None)
        }
    }
}

/// The line after the characters `keys`, up to and including the first at
/// which the editor stops.
pub open spec fn pressed_all(line: LineView, keys: Seq<char>, commands: Seq<Seq<char>>) -> (
    LineView,
    Option<Stop>,
)
    decreases keys.len(),
{
    if keys.len() == 0 {
        (line, None)
    } else {
        let (next, stop) = pressed(line, keys[0], commands);
        if stop is Some {
            (next, stop)
        } else {
            pressed_all(next, keys.skip(1), commands)
        }
    }
}

/// Decides [`same_length`].
fn all_same_length(list: &Vec<Vec<char>>) -> (r: bool)
    requires
        list@.len() > 0,
    ensures
        r == same_length(words_view(list@)),
{
    let first = encoded_len(list[0].as_slice());
    let mut i: usize = 1;
    while i < list.len()
        invariant
            1 <= i <= list.len(),
            first == utf8_len(list@[0]@),
            forall|j: int| 0 <= j < i ==> utf8_len(#[trigger] words_view(list@)[j]) == first,
        decreases list.len() - i,
    {
        if encoded_len(list[i].as_slice()) != first {
            proof {
                assert(words_view(list@)[i as int] == list@[i as int]@);
            }
            return false;
        }
        i = i + 1;
    }
    true
}

/// Puts `add` at the end of the payload and shows it.
fn type_out(payload: &mut Vec<char>, echo: &mut Vec<char>, add: &[char])
    ensures
        final(payload)@ == old(payload)@ + add@,
        final(echo)@ == old(echo)@ + add@,
{
    append(payload, add);
    append(echo, add);
}

/// Computes [`remainder`].
fn rest_of(word: &[char], name: &[char]) -> (r: Vec<char>)
    ensures
        r@ == remainder(word@, name@),
{
    if name.len() > word.len() {
        let mut r = copy_from(name, word.len());
        r.push(' ');
        r
    } else {
        vec![' ']
    }
}

/// Computes [`partial_remainder`].
fn part_of(word: &[char], name: &[char]) -> (r: Vec<char>)
    ensures
        r@ == partial_remainder(word@, name@),
{
    if name.len() > word.len() {
        let mut r = copy_from(name, word.len());
        let k = find_first(r.as_slice(), '_');
        if k < r.len() {
            r.truncate(k);
        } else {
            r.push(' ');
        }
        r
    } else {
        vec![' ']
    }
}

/// Handles a tab; see [`after_tab`]. Returns the list that is armed.
fn press_tab(payload: &mut Vec<char>, echo: &mut Vec<char>, commands: &Vec<Vec<char>>) -> (listing:
    Option<Vec<char>>)
    ensures
        ({
            let before = LineView { payload: old(payload)@, listing: None, echo: old(echo)@ };
            let after = after_tab(before, words_view(commands@));
            &&& final(payload)@ == after.payload
            &&& final(echo)@ == after.echo
            &&& text_view(listing) == after.listing
        }),
{
    if payload.len() == 0 || payload[payload.len() - 1] == ' ' {
        return None;
    }
    let from = find_after_last(payload.as_slice(), ' ');
    let word = copy_from(payload.as_slice(), from);
    let list = get_completions(commands, word.as_slice());
    if list.len() == 0 {
        echo.push('\x07');
        None
    } else if list.len() == 1 {
        let add = rest_of(word.as_slice(), list[0].as_slice());
        type_out(payload, echo, add.as_slice());
        None
    } else if all_same_length(&list) {
        let mut text: Vec<char> = vec!['\n'];
        let sep: Vec<char> = vec![' ', ' '];
        push_joined(&mut text, &list, sep.as_slice());
        text.push('\n');
        echo.push('\x07');
        proof {
            assert(sep@ =~= seq![' ', ' ']);
            assert(text@ =~= listing_text(words_view(list@)));
        }
        Some(text)
    } else {
        let add = part_of(word.as_slice(), list[list.len() - 1].as_slice());
        type_out(payload, echo, add.as_slice());
        None
    }
}

/// Handles a backspace or delete; see [`after_backspace`].
fn press_backspace(payload: &mut Vec<char>, echo: &mut Vec<char>)
    ensures
        ({
            let before = LineView { payload: old(payload)@, listing: None, echo: old(echo)@ };
            let after = after_backspace(before);
            &&& final(payload)@ == after.payload
            &&& final(echo)@ == after.echo
        }),
{
    match payload.pop() {
        None => {},
        Some(c) => {
            proof {
                assert(payload@ =~= old(payload)@.drop_last());
            }
            if c == '\n' {
                let k = find_after_last(payload.as_slice(), '\n');
                let column: u128 = if k > 0 {
                    encoded_len_from(payload.as_slice(), k - 1)
                } else {
                    let whole = encoded_len(payload.as_slice());
                    whole + 3
                };
                let ghost start = echo@;
                echo.push('\x1b');
                echo.push('[');
                echo.push('A');
                echo.push('\x1b');
                echo.push('[');
                push_decimal(echo, column);
                echo.push('G');
                proof {
                    assert(echo@ =~= start + cursor_return(column as nat));
                }
            } else {
                let wide = char_width(c) > 1;
                let ghost start = echo@;
                echo.push('\x1b');
                echo.push('[');
                echo.push(if wide { '2' } else { '1' });
                echo.push('D');
                echo.push('\x1b');
                echo.push('[');
                echo.push(if wide { '2' } else { '1' });
                echo.push('X');
                proof {
                    assert(echo@ =~= start + erase(wide));
                }
            }
        },
    }
}

/// Handles the character `c`; see [`pressed`]. Takes the armed list, if
/// any, and returns the one that is armed afterwards.
pub fn press(
    payload: &mut Vec<char>,
    listing: Option<Vec<char>>,
    echo: &mut Vec<char>,
    commands: &Vec<Vec<char>>,
    c: char,
) -> (r: (Option<Vec<char>>, Option<Stop>))
    ensures
        ({
            let before = LineView {
                payload: old(payload)@,
                listing: text_view(listing),
                echo: old(echo)@,
            };
            let (after, stop) = pressed(before, c, words_view(commands@));
            &&& final(payload)@ == after.payload
            &&& final(echo)@ == after.echo
            &&& text_view(r.0) == after.listing
            &&& r.1 == stop
        }),
{
    if !char_is_control(c) {
        payload.push(c);
        echo.push(c);
        proof {
            assert(payload@ =~= old(payload)@ + seq![c]);
            assert(echo@ =~= old(echo)@ + seq![c]);
        }
    }
    if c == '\t' {
        match listing {
            Some(text) => {
                append(echo, text.as_slice());
                (None, Some(Stop::Listed))
            },
            None => (press_tab(payload, echo, commands), None),
        }
    } else if c == '\n' {
        echo.push('\n');
        if quotes_closed(payload.as_slice()) {
            (None, Some(Stop::Submit))
        } else {
            payload.push('\n');
            (None, None)
        }
    } else if c == '\x08' || c == '\x7f' {
        press_backspace(payload, echo);
        (None, None)
    } else {
        (None, None)
    }
}

/// Handles the characters `keys` in order, up to and including the first at
/// which the editor stops; see [`pressed_all`].
pub fn press_all(
    payload: &mut Vec<char>,
    listing: Option<Vec<char>>,
    echo: &mut Vec<char>,
    commands: &Vec<Vec<char>>,
    keys: &[char],
) -> (r: (Option<Vec<char>>, Option<Stop>))
    ensures
        ({
            let before = LineView {
                payload: old(payload)@,
                listing: text_view(listing),
                echo: old(echo)@,
            };
            let (after, stop) = pressed_all(before, keys@, words_view(commands@));
            &&& final(payload)@ == after.payload
            &&& final(echo)@ == after.echo
            &&& text_view(r.0) == after.listing
            &&& r.1 == stop
        }),
{
    let ghost names = words_view(commands@);
    let ghost first = LineView {
        payload: old(payload)@,
        listing: text_view(listing),
        echo: old(echo)@,
    };
    let ghost goal = pressed_all(first, keys@, names);
    let mut armed = listing;
    let mut i: usize = 0;
    proof {
        assert(keys@.skip(0) =~= keys@);
    }
    while i < keys.len()
        invariant
            i <= keys.len(),
            names == words_view(commands@),
            first.payload == old(payload)@,
            first.echo == old(echo)@,
            first.listing == text_view(listing),
            goal == pressed_all(first, keys@, names),
            pressed_all(
                LineView { payload: payload@, listing: text_view(armed), echo: echo@ },
                keys@.skip(i as int),
                names,
            ) == goal,
        decreases keys.len() - i,
    {
        proof {
            assert(keys@.skip(i as int).skip(1) =~= keys@.skip(i + 1));
            assert(keys@.skip(i as int)[0] == keys@[i as int]);
        }
        let (next, stop) = press(payload, armed, echo, commands, keys[i]);
        if stop.is_some() {
            return (next, stop);
        }
        armed = next;
        i = i + 1;
    }
    (armed, None)
}

/// A backspace or delete after a character of more than one byte removes
/// that one character from the payload, sends the sequence that erases two
/// columns, and does not stop the editor.
pub proof fn lemma_backspace_wide(line: LineView, key: char, commands: Seq<Seq<char>>)
    requires
        key == '\x08' || key == '\x7f',
        line.payload.len() > 0,
        utf8_width(line.payload.last()) > 1,
    ensures
        pressed(line, key, commands).0.payload == line.payload.drop_last(),
        pressed(line, key, commands).0.echo == line.echo + erase(true),
        pressed(line, key, commands).1 is None,
{
}

/// A tab while a list is armed prints that list after what was sent
/// before, leaves the payload as it is, disarms the list and stops the
/// editor without a line.
pub proof fn lemma_second_tab_lists(line: LineView, commands: Seq<Seq<char>>)
    requires
        line.listing is Some,
    ensures
        pressed(line, '\t', commands).1 == Some(Stop::Listed),
        pressed(line, '\t', commands).0.payload == line.payload,
        pressed(line, '\t', commands).0.echo == line.echo + line.listing->Some_0,
        pressed(line, '\t', commands).0.listing is None,
{
}

/// Any key but a tab leaves no list armed, whether one was armed or not.
pub proof fn lemma_other_key_disarms(line: LineView, c: char, commands: Seq<Seq<char>>)
    requires
        c != '\t',
    ensures
        pressed(line, c, commands).0.listing is None,
{
}

/// The editor hands a line over only when its quotes are closed, and then
/// the line is the payload with the characters typed before the line break.
pub proof fn lemma_submit_is_balanced(line: LineView, c: char, commands: Seq<Seq<char>>)
    requires
        pressed(line, c, commands).1 == Some(Stop::Submit),
    ensures
        c == '\n',
        balanced(line.payload),
        pressed(line, c, commands).0.payload == line.payload,
{
}

} // verus!
