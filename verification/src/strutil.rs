//! Verified helpers on strings: character-wise equality and splitting a
//! class attribute at spaces.

use vstd::prelude::*;

verus! {

/// Splits a character sequence at every space, keeping empty tokens, the
/// way splitting at a single separator character does: the empty sequence
/// yields one empty token.
pub open spec fn split_spaces(s: Seq<char>) -> Seq<Seq<char>>
    decreases s.len(),
{
    if s.len() == 0 {
        seq![Seq::<char>::empty()]
    } else if s[0] == ' ' {
        seq![Seq::<char>::empty()] + split_spaces(s.drop_first())
    } else {
        let rest = split_spaces(s.drop_first());
        seq![seq![s[0]] + rest[0]] + rest.drop_first()
    }
}

pub proof fn lemma_split_spaces_len(s: Seq<char>)
    ensures
        split_spaces(s).len() >= 1,
    decreases s.len(),
{
    if s.len() == 0 {
    } else if s[0] == ' ' {
        lemma_split_spaces_len(s.drop_first());
    } else {
        lemma_split_spaces_len(s.drop_first());
    }
}

/// A token without spaces splits into itself alone.
pub proof fn lemma_split_no_space(u: Seq<char>)
    requires
        forall|i: int| 0 <= i < u.len() ==> u[i] != ' ',
    ensures
        split_spaces(u) =~= seq![u],
    decreases u.len(),
{
    if u.len() == 0 {
        assert(split_spaces(u) == seq![Seq::<char>::empty()]);
        assert(u =~= Seq::<char>::empty());
    } else {
        lemma_split_no_space(u.drop_first());
        let rest = split_spaces(u.drop_first());
        assert(rest =~= seq![u.drop_first()]);
        assert(seq![u[0]] + u.drop_first() =~= u);
        assert(split_spaces(u) =~= seq![seq![u[0]] + rest[0]] + rest.drop_first());
        assert(split_spaces(u) =~= seq![u]);
    }
}

/// A space after a space-free prefix separates that prefix off as one token.
pub proof fn lemma_split_at_space(u: Seq<char>, w: Seq<char>)
    requires
        forall|i: int| 0 <= i < u.len() ==> u[i] != ' ',
    ensures
        split_spaces(u + seq![' '] + w) =~= seq![u] + split_spaces(w),
    decreases u.len(),
{
    let s = u + seq![' '] + w;
    if u.len() == 0 {
        assert(s =~= seq![' '] + w);
        assert(s[0] == ' ');
        assert(s.drop_first() =~= w);
        assert(split_spaces(s) =~= seq![Seq::<char>::empty()] + split_spaces(w));
        assert(u =~= Seq::<char>::empty());
    } else {
        assert(s[0] == u[0]);
        assert(s[0] != ' ');
        assert(s.drop_first() =~= u.drop_first() + seq![' '] + w);
        lemma_split_at_space(u.drop_first(), w);
        let rest = split_spaces(s.drop_first());
        assert(rest =~= seq![u.drop_first()] + split_spaces(w));
        lemma_split_spaces_len(w);
        assert(rest[0] =~= u.drop_first());
        assert(seq![s[0]] + rest[0] =~= u);
        assert(rest.drop_first() =~= split_spaces(w));
        assert(split_spaces(s) =~= seq![seq![s[0]] + rest[0]] + rest.drop_first());
        assert(split_spaces(s) =~= seq![u] + split_spaces(w));
    }
}

/// Character-wise equality of two string slices.
pub fn str_eq(a: &str, b: &str) -> (r: bool)
    ensures
        r == (a@ == b@),
{
    let n = a.unicode_len();
    if n != b.unicode_len() {
        return false;
    }
    let mut i: usize = 0;
    while i < n
        invariant
            0 <= i <= n,
            n == a@.len(),
            n == b@.len(),
            forall|j: int| 0 <= j < i ==> a@[j] == b@[j],
        decreases n - i,
    {
        if a.get_char(i) != b.get_char(i) {
            return false;
        }
        i = i + 1;
    }
    proof {
        assert(a@ =~= b@);
    }
    true
}

/// Whether one of the strings in `v` has the characters of `s`.
pub fn contains_str(v: &Vec<String>, s: &str) -> (r: bool)
    ensures
        r == v.deep_view().contains(s@),
{
    let mut i: usize = 0;
    while i < v.len()
        invariant
            0 <= i <= v@.len(),
            forall|j: int| 0 <= j < i ==> v.deep_view()[j] != s@,
        decreases v@.len() - i,
    {
        if str_eq(v[i].as_str(), s) {
            assert(v.deep_view()[i as int] == s@);
            return true;
        }
        i = i + 1;
    }
    proof {
        if v.deep_view().contains(s@) {
            let j = choose|j: int| 0 <= j < v.deep_view().len() && v.deep_view()[j] == s@;
            assert(v.deep_view()[j] != s@);
        }
    }
    false
}

/// Splits a string at every space into owned tokens.
pub fn split_classes(s: &str) -> (r: Vec<String>)
    ensures
        r.deep_view() =~= split_spaces(s@),
{
    let n = s.unicode_len();
    let mut out: Vec<String> = Vec::new();
    let mut start: usize = 0;
    let mut i: usize = 0;
    proof {
        assert(out.deep_view() =~= Seq::<Seq<char>>::empty());
        assert(s@.subrange(0, n as int) =~= s@);
    }
    while i < n
        invariant
            0 <= start <= i <= n,
            n == s@.len(),
            forall|j: int| start <= j < i ==> s@[j] != ' ',
            split_spaces(s@) =~= out.deep_view() + split_spaces(
                s@.subrange(start as int, n as int),
            ),
        decreases n - i,
    {
        if s.get_char(i) == ' ' {
            let token = s.substring_char(start, i);
            proof {
                let tail = s@.subrange(start as int, n as int);
                let u = s@.subrange(start as int, i as int);
                let w = s@.subrange(i as int + 1, n as int);
                assert(tail =~= u + seq![' '] + w);
                lemma_split_at_space(u, w);
            }
            out.push(String::from_str(token));
            start = i + 1;
        }
        i = i + 1;
    }
    let token = s.substring_char(start, n);
    proof {
        lemma_split_no_space(s@.subrange(start as int, n as int));
    }
    out.push(String::from_str(token));
    out
}

} // verus!
