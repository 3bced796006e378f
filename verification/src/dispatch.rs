//! Routing a command: which commands the shell runs itself, and the text
//! that `echo` and `type` write.
use vstd::prelude::*;
use crate::completion::{builtin_names, builtins};
use crate::text::{append, join, push_joined, push_str, text_view, words_view};

verus! {

/// A command that the shell runs itself.
#[derive(Clone, Copy, Debug, PartialEq, Eq)]
pub enum Builtin {
    Cd,
    Pwd,
    Exit,
    Echo,
    Type,
}

/// The builtin that `name` names, if it names one.
pub open spec fn builtin_of(name: Seq<char>) -> Option<Builtin> {
    if name == builtin_names()[0] {
        Some(Builtin::Cd)
    } else if name == builtin_names()[1] {
        Some(Builtin::Pwd)
    } else if name == builtin_names()[2] {
        Some(Builtin::Exit)
    } else if name == builtin_names()[3] {
        Some(Builtin::Echo)
    } else if name == builtin_names()[4] {
        Some(Builtin::Type)
    } else {
        None
    }
}

/// A name names a builtin just when it is among the builtin names.
pub proof fn lemma_builtin_of(name: Seq<char>)
    ensures
        builtin_of(name) is Some <==> builtin_names().contains(name),
{
    if builtin_of(name) is Some {
        let k = choose|k: int| 0 <= k < 5 && builtin_names()[k] == name;
        assert(builtin_names()[k] == name);
    }
}

/// Decides whether two character sequences are equal.
pub fn same_text(a: &[char], b: &[char]) -> (r: bool)
    ensures
        r == (a@ == b@),
{
    if a.len() != b.len() {
        return false;
    }
    let mut i: usize = 0;
    while i < a.len()
        invariant
            i <= a.len(),
            a.len() == b.len(),
            forall|j: int| 0 <= j < i ==> a@[j] == b@[j],
        decreases a.len() - i,
    {
        if a[i] != b[i] {
            return false;
        }
        i = i + 1;
    }
    proof {
        assert(a@ =~= b@);
    }
    true
}

/// Finds the builtin that `command` names; `None` is a program to look up.
pub fn classify(command: &[char]) -> (r: Option<Builtin>)
    ensures
        r == builtin_of(command@),
{
    let names = builtins();
    proof {
        assert(builtin_names().len() == 5);
        assert(words_view(names@).len() == names@.len());
        assert(forall|k: int| 0 <= k < 5 ==> words_view(names@)[k] == names@[k]@);
    }
    if same_text(command, names[0].as_slice()) {
        Some(Builtin::Cd)
    } else if same_text(command, names[1].as_slice()) {
        Some(Builtin::Pwd)
    } else if same_text(command, names[2].as_slice()) {
        Some(Builtin::Exit)
    } else if same_text(command, names[3].as_slice()) {
        Some(Builtin::Echo)
    } else if same_text(command, names[4].as_slice()) {
        Some(Builtin::Type)
    } else {
        None
    }
}

/// What `echo` writes: its arguments with one space between each two, then
/// a space and a line break.
pub open spec fn echo_line(args: Seq<Seq<char>>) -> Seq<char> {
    join(args, seq![' ']) + seq![' ', '\n']
}

/// Computes [`echo_line`].
pub fn echo_text(args: &Vec<Vec<char>>) -> (r: Vec<char>)
    ensures
        r@ == echo_line(words_view(args@)),
{
    let mut r: Vec<char> = Vec::new();
    let sep: Vec<char> = vec![' '];
    push_joined(&mut r, args, sep.as_slice());
    r.push(' ');
    r.push('\n');
    proof {
        assert(sep@ =~= seq![' ']);
        assert(r@ =~= echo_line(words_view(args@)));
    }
    r
}

/// What `type` writes about `target`, for which the search found `found`:
/// that it is a builtin, or else the path found, or that none was.
pub open spec fn type_line(target: Seq<char>, found: Option<Seq<char>>) -> Seq<char> {
    if builtin_of(target) is Some {
        target + " is a shell builtin\n"@
    } else {
        match found {
            Some(path) => path.push('\n'),
            None => target + ": not found\n"@,
        }
    }
}

/// The status of `type` after `target`: unchanged by a builtin, 0 after a
/// program that was found, 1 after one that was not.
pub open spec fn type_status(before: int, target: Seq<char>, found: Option<Seq<char>>) -> int {
    if builtin_of(target) is Some {
        before
    } else if found is Some {
        0
    } else {
        1
    }
}

/// What `type` writes about one target, and its status afterwards; see
/// [`type_line`] and [`type_status`].
pub fn type_one(target: &[char], found: Option<Vec<char>>, before: i32) -> (r: (Vec<char>, i32))
    ensures
        r.0@ == type_line(target@, text_view(found)),
        r.1 == type_status(before as int, target@, text_view(found)),
{
    let mut text: Vec<char> = Vec::new();
    if classify(target).is_some() {
        append(&mut text, target);
        push_str(&mut text, " is a shell builtin\n");
        (text, before)
    } else {
        match found {
            Some(path) => {
                append(&mut text, path.as_slice());
                text.push('\n');
                (text, 0)
            },
            None => {
                append(&mut text, target);
                push_str(&mut text, ": not found\n");
                (text, 1)
            },
        }
    }
}

} // verus!
