//! Completing a partial command name from the builtin names and the names
//! of the programs that were found.
use vstd::prelude::*;
use vstd::seq_lib::*;
use crate::text::{copy, encoded_len, utf8_len, words_view};

verus! {

/// The names of the commands that the shell runs itself.
pub open spec fn builtin_names() -> Seq<Seq<char>> {
    seq![
        seq!['c', 'd'],
        seq!['p', 'w', 'd'],
        seq!['e', 'x', 'i', 't'],
        seq!['e', 'c', 'h', 'o'],
        seq!['t', 'y', 'p', 'e'],
    ]
}

/// The names of the commands that the shell runs itself.
pub fn builtins() -> (r: Vec<Vec<char>>)
    ensures
        words_view(r@) == builtin_names(),
{
    let r = vec![
        vec!['c', 'd'],
        vec!['p', 'w', 'd'],
        vec!['e', 'x', 'i', 't'],
        vec!['e', 'c', 'h', 'o'],
        vec!['t', 'y', 'p', 'e'],
    ];
    proof {
        assert(r@[0]@ =~= builtin_names()[0]);
        assert(r@[1]@ =~= builtin_names()[1]);
        assert(r@[2]@ =~= builtin_names()[2]);
        assert(r@[3]@ =~= builtin_names()[3]);
        assert(r@[4]@ =~= builtin_names()[4]);
        assert(words_view(r@) =~= builtin_names());
    }
    r
}

/// Decides whether `s` begins with `prefix`.
pub fn starts_with(s: &[char], prefix: &[char]) -> (r: bool)
    ensures
        r == prefix@.is_prefix_of(s@),
{
    if prefix.len() > s.len() {
        return false;
    }
    let mut i: usize = 0;
    while i < prefix.len()
        invariant
            i <= prefix.len() <= s.len(),
            forall|j: int| 0 <= j < i ==> s@[j] == prefix@[j],
        decreases prefix.len() - i,
    {
        if s[i] != prefix[i] {
            proof {
                assert(s@.subrange(0, prefix@.len() as int)[i as int] != prefix@[i as int]);
            }
            return false;
        }
        i = i + 1;
    }
    true
}

/// Whether `a` comes no later than `b` when the two are compared character
/// by character, a proper prefix coming first.
pub open spec fn lex_le(a: Seq<char>, b: Seq<char>) -> bool
    decreases a.len(),
{
    if a.len() == 0 {
        true
    } else if b.len() == 0 {
        false
    } else if a[0] != b[0] {
        (a[0] as u32) < (b[0] as u32)
    } else {
        lex_le(a.skip(1), b.skip(1))
    }
}

/// Of any two sequences one comes no later than the other.
pub proof fn lemma_lex_total(a: Seq<char>, b: Seq<char>)
    ensures
        lex_le(a, b) || lex_le(b, a),
    decreases a.len(),
{
    if a.len() > 0 && b.len() > 0 {
        if a[0] == b[0] {
            lemma_lex_total(a.skip(1), b.skip(1));
        } else {
            vstd::utf8::char_u32_cast(a[0], a[0] as u32);
            vstd::utf8::char_u32_cast(b[0], b[0] as u32);
        }
    }
}

/// The character-by-character order is transitive.
pub proof fn lemma_lex_transitive(a: Seq<char>, b: Seq<char>, c: Seq<char>)
    requires
        lex_le(a, b),
        lex_le(b, c),
    ensures
        lex_le(a, c),
    decreases a.len(),
{
    if a.len() > 0 && b.len() > 0 && c.len() > 0 && a[0] == b[0] && b[0] == c[0] {
        lemma_lex_transitive(a.skip(1), b.skip(1), c.skip(1));
    }
}

/// Two sequences of which each comes no later than the other are equal.
pub proof fn lemma_lex_antisymmetric(a: Seq<char>, b: Seq<char>)
    requires
        lex_le(a, b),
        lex_le(b, a),
    ensures
        a == b,
    decreases a.len(),
{
    if a.len() > 0 && b.len() > 0 {
        lemma_lex_antisymmetric(a.skip(1), b.skip(1));
        assert(a =~= seq![a[0]] + a.skip(1));
        assert(b =~= seq![b[0]] + b.skip(1));
    } else {
        assert(a =~= b);
    }
}

/// Decides [`lex_le`].
pub fn lex_no_later(a: &[char], b: &[char]) -> (r: bool)
    ensures
        r == lex_le(a@, b@),
{
    let mut i: usize = 0;
    proof {
        assert(a@.skip(0) =~= a@);
        assert(b@.skip(0) =~= b@);
    }
    while i < a.len() && i < b.len() && a[i] == b[i]
        invariant
            i <= a.len(),
            i <= b.len(),
            lex_le(a@, b@) == lex_le(a@.skip(i as int), b@.skip(i as int)),
        decreases a.len() - i,
    {
        proof {
            assert(a@.skip(i as int).skip(1) =~= a@.skip(i + 1));
            assert(b@.skip(i as int).skip(1) =~= b@.skip(i + 1));
        }
        i = i + 1;
    }
    if i == a.len() {
        true
    } else if i == b.len() {
        false
    } else {
        (a[i] as u32) < (b[i] as u32)
    }
}

/// The order of a completion list: a name of fewer encoded bytes comes
/// first, and of two names of equal length the one that comes no later
/// character by character.
pub open spec fn ranks_before(a: Seq<char>, b: Seq<char>) -> bool {
    utf8_len(a) < utf8_len(b) || (utf8_len(a) == utf8_len(b) && lex_le(a, b))
}

/// Whether each name of `names` ranks before all that follow it.
pub open spec fn ordered(names: Seq<Seq<char>>) -> bool {
    forall|i: int, j: int| 0 <= i < j < names.len() ==> ranks_before(names[i], names[j])
}

/// The test that a name begins with `prefix`.
pub open spec fn begins_with(prefix: Seq<char>) -> spec_fn(Seq<char>) -> bool {
    |name: Seq<char>| prefix.is_prefix_of(name)
}

/// The names that a completion chooses from: the builtin names, then the
/// names that were found.
pub open spec fn pool(commands: Seq<Seq<char>>) -> Seq<Seq<char>> {
    builtin_names() + commands
}

/// The names of the pool that begin with `prefix`, in the pool's order.
pub open spec fn matching(commands: Seq<Seq<char>>, prefix: Seq<char>) -> Seq<Seq<char>> {
    pool(commands).filter(begins_with(prefix))
}

/// Whether `list` is the completion list for `prefix`: the matching names,
/// each as often as the pool holds it, in the order of [`ranks_before`].
pub open spec fn is_completion_list(
    list: Seq<Seq<char>>,
    commands: Seq<Seq<char>>,
    prefix: Seq<char>,
) -> bool {
    ordered(list) && list.to_multiset() == matching(commands, prefix).to_multiset()
}

/// The completion list for `prefix`; see [`is_completion_list`], which
/// holds of it and of no other list.
pub open spec fn completion_list(commands: Seq<Seq<char>>, prefix: Seq<char>) -> Seq<Seq<char>> {
    choose|list: Seq<Seq<char>>| is_completion_list(list, commands, prefix)
}

/// Two ordered lists that hold the same names equally often are equal: the
/// order of a completion list leaves no choice, so that ordering a list
/// again, or ordering the same names from another arrangement, gives the
/// same list.
pub proof fn lemma_ordered_unique(a: Seq<Seq<char>>, b: Seq<Seq<char>>)
    requires
        ordered(a),
        ordered(b),
        a.to_multiset() == b.to_multiset(),
    ensures
        a == b,
    decreases a.len(),
{
    to_multiset_len(a);
    to_multiset_len(b);
    assert(a.len() == b.len());
    if a.len() == 0 {
        assert(a =~= b);
    } else {
        let n = a.len() - 1;
        let x = a[n];
        let y = b[n];
        assert(a.contains(x));
        assert(b.contains(y));
        to_multiset_contains(a, x);
        to_multiset_contains(b, x);
        to_multiset_contains(a, y);
        to_multiset_contains(b, y);
        assert(b.contains(x));
        assert(a.contains(y));
        let j = choose|j: int| 0 <= j < b.len() && b[j] == x;
        let k = choose|k: int| 0 <= k < a.len() && a[k] == y;
        lemma_lex_total(x, x);
        lemma_lex_total(y, y);
        assert(ranks_before(x, y));
        assert(ranks_before(y, x));
        lemma_lex_antisymmetric(x, y);
        to_multiset_remove(a, n);
        to_multiset_remove(b, n);
        assert(a.remove(n) =~= a.drop_last());
        assert(b.remove(n) =~= b.drop_last());
        lemma_ordered_unique(a.drop_last(), b.drop_last());
        assert(a =~= a.drop_last().push(x));
        assert(b =~= b.drop_last().push(y));
    }
}

/// Decides [`ranks_before`].
fn no_later(a: &[char], b: &[char]) -> (r: bool)
    ensures
        r == ranks_before(a@, b@),
{
    let la = encoded_len(a);
    let lb = encoded_len(b);
    la < lb || (la == lb && lex_no_later(a, b))
}

/// Puts the names of `names` that begin with `prefix` into the ordered list
/// `out`, each at its place.
fn collect(out: &mut Vec<Vec<char>>, names: &Vec<Vec<char>>, prefix: &[char])
    requires
        ordered(words_view(old(out)@)),
    ensures
        ordered(words_view(final(out)@)),
        words_view(final(out)@).to_multiset() == (words_view(old(out)@) + words_view(
            names@,
        ).filter(begins_with(prefix@))).to_multiset(),
{
    let ghost all = words_view(names@);
    let ghost test = begins_with(prefix@);
    let ghost start = words_view(out@);
    let mut i: usize = 0;
    proof {
        assert(all.take(0) =~= Seq::<Seq<char>>::empty());
        assert(all.take(0).filter(test) =~= Seq::<Seq<char>>::empty()) by {
            reveal(Seq::filter);
        }
        assert(start + all.take(0).filter(test) =~= start);
    }
    while i < names.len()
        invariant
            i <= names.len(),
            all == words_view(names@),
            test == begins_with(prefix@),
            ordered(words_view(out@)),
            words_view(out@).to_multiset() == (start + all.take(i as int).filter(
                test,
            )).to_multiset(),
        decreases names.len() - i,
    {
        let name = names[i].as_slice();
        proof {
            assert(all.take(i + 1) =~= all.take(i as int).push(name@));
            all.take(i as int).lemma_filter_push(name@, test);
        }
        if starts_with(name, prefix) {
            let ghost list = words_view(out@);
            let mut pos: usize = 0;
            while pos < out.len() && no_later(out[pos].as_slice(), name)
                invariant
                    pos <= out.len(),
                    list == words_view(out@),
                    forall|j: int| 0 <= j < pos ==> ranks_before(list[j], name@),
                decreases out.len() - pos,
            {
                pos = pos + 1;
            }
            out.insert(pos, copy(name));
            proof {
                let next = words_view(out@);
                assert(next =~= list.insert(pos as int, name@));
                to_multiset_insert(list, pos as int, name@);
                let found = all.take(i as int).filter(test);
                to_multiset_build(start + found, name@);
                assert((start + found).push(name@) =~= start + found.push(name@));
                assert forall|a: int, b: int| 0 <= a < b < next.len() implies ranks_before(
                    next[a],
                    next[b],
                ) by {
                    if a == pos {
                        lemma_lex_total(list[pos as int], name@);
                        if b - 1 > pos {
                            lemma_rank_transitive(name@, list[pos as int], list[b - 1]);
                        }
                    } else if b == pos {
                    } else {
                        let a0 = if a < pos { a } else { a - 1 };
                        let b0 = if b < pos { b } else { b - 1 };
                        assert(ranks_before(list[a0], list[b0]));
                    }
                }
            }
        }
        i = i + 1;
    }
    proof {
        assert(all.take(i as int) =~= all);
    }
}

/// The order of a completion list is transitive.
pub proof fn lemma_rank_transitive(a: Seq<char>, b: Seq<char>, c: Seq<char>)
    requires
        ranks_before(a, b),
        ranks_before(b, c),
    ensures
        ranks_before(a, c),
{
    if utf8_len(a) == utf8_len(b) && utf8_len(b) == utf8_len(c) {
        lemma_lex_transitive(a, b, c);
    }
}

/// The completion list for `prefix`: the builtin names and the names in
/// `commands` that begin with it, shortest first and in character order
/// among names of one length.
pub fn get_completions(commands: &Vec<Vec<char>>, prefix: &[char]) -> (list: Vec<Vec<char>>)
    ensures
        is_completion_list(words_view(list@), words_view(commands@), prefix@),
        words_view(list@) == completion_list(words_view(commands@), prefix@),
{
    let own = builtins();
    let mut list: Vec<Vec<char>> = Vec::new();
    let ghost test = begins_with(prefix@);
    let ghost a = builtin_names();
    let ghost b = words_view(commands@);
    proof {
        assert(words_view(list@) =~= Seq::<Seq<char>>::empty());
        assert(words_view(list@) + a.filter(test) =~= a.filter(test));
    }
    collect(&mut list, &own, prefix);
    let ghost first = words_view(list@);
    collect(&mut list, commands, prefix);
    proof {
        Seq::filter_distributes_over_add(a, b, test);
        lemma_multiset_commutative(a.filter(test), b.filter(test));
        lemma_multiset_commutative(first, b.filter(test));
        assert(is_completion_list(words_view(list@), b, prefix@));
        lemma_ordered_unique(words_view(list@), completion_list(b, prefix@));
    }
    list
}

} // verus!
