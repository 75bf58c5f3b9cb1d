//! Character-level helpers over `&str`, stated on the strings' `Seq<char>` views.

use vstd::prelude::*;

verus! {

/// The characters of `s`, in order.
pub fn chars_of(s: &str) -> (res: Vec<char>)
    ensures
        res@ == s@,
{
    let mut res: Vec<char> = Vec::new();
    for c in it: s.chars()
        invariant
            res@ == it.seq().take(it.index() as int),
            it.seq() == s@,
    {
        res.push(c);
    }
    res
}

/// Whether `s` and `t` hold the same characters.
pub fn str_eq(s: &str, t: &str) -> (res: bool)
    ensures
        res == (s@ == t@),
{
    let a = chars_of(s);
    let b = chars_of(t);
    if a.len() != b.len() {
        return false;
    }
    let mut i: usize = 0;
    while i < a.len()
        invariant
            a@ == s@,
            b@ == t@,
            a.len() == b.len(),
            i <= a.len(),
            forall|j: int| 0 <= j < i ==> a@[j] == b@[j],
        decreases a.len() - i,
    {
        if a[i] != b[i] {
            return false;
        }
        i = i + 1;
    }
    assert(a@ =~= b@);
    true
}

/// `s` cut at the first occurrence of `c`: the part before it and the part
/// after it, or `None` when `c` does not occur.
pub open spec fn split_at_first(s: Seq<char>, c: char) -> Option<(Seq<char>, Seq<char>)>
    decreases s.len(),
{
    if s.len() == 0 {
        None
    } else if s[0] == c {
        Some((Seq::empty(), s.drop_first()))
    } else {
        match split_at_first(s.drop_first(), c) {
            Some((a, b)) => Some((seq![s[0]] + a, b)),
            None => None,
        }
    }
}

/// Cutting at the first occurrence, found at index `i`.
pub proof fn lemma_split_at_first_found(s: Seq<char>, c: char, i: int)
    requires
        0 <= i < s.len(),
        s[i] == c,
        forall|j: int| 0 <= j < i ==> s[j] != c,
    ensures
        split_at_first(s, c) == Some((s.take(i), s.skip(i + 1))),
    decreases s.len(),
{
    if i == 0 {
        assert(s.take(0) =~= Seq::<char>::empty());
        assert(s.skip(1) =~= s.drop_first());
    } else {
        let t = s.drop_first();
        assert forall|j: int| 0 <= j < i - 1 implies t[j] != c by {
            assert(t[j] == s[j + 1]);
        }
        lemma_split_at_first_found(t, c, i - 1);
        assert(seq![s[0]] + t.take(i - 1) =~= s.take(i));
        assert(t.skip(i) =~= s.skip(i + 1));
    }
}

/// Without an occurrence there is no cut.
pub proof fn lemma_split_at_first_absent(s: Seq<char>, c: char)
    requires
        forall|j: int| 0 <= j < s.len() ==> s[j] != c,
    ensures
        split_at_first(s, c) is None,
    decreases s.len(),
{
    if s.len() > 0 {
        let t = s.drop_first();
        assert forall|j: int| 0 <= j < t.len() implies t[j] != c by {
            assert(t[j] == s[j + 1]);
        }
        lemma_split_at_first_absent(t, c);
    }
}

/// When there is a cut, the two parts around `c` make up `s`, and the first
/// part holds no `c`.
pub proof fn lemma_split_at_first_parts(s: Seq<char>, c: char)
    ensures
        split_at_first(s, c) matches Some((a, b)) ==> s == a + seq![c] + b && !a.contains(c),
    decreases s.len(),
{
    if s.len() > 0 {
        lemma_split_at_first_parts(s.drop_first(), c);
        if s[0] == c {
            assert(s =~= Seq::<char>::empty() + seq![c] + s.drop_first());
        } else if let Some((a, b)) = split_at_first(s.drop_first(), c) {
            assert(s =~= seq![s[0]] + s.drop_first());
            assert(s =~= (seq![s[0]] + a) + seq![c] + b);
            let a2 = seq![s[0]] + a;
            if a2.contains(c) {
                let j = choose|j: int| 0 <= j < a2.len() && a2[j] == c;
                assert(j > 0);
                assert(a[j - 1] == c);
            }
        }
    }
}

/// Splits `s` at the first occurrence of `c`, as `str::split_once` does.
pub fn split_once(s: &str, c: char) -> (res: Option<(String, String)>)
    ensures
        match split_at_first(s@, c) {
            Some((a, b)) => res matches Some((x, y)) && x@ == a && y@ == b,
            None => res is None,
        },
{
    let v = chars_of(s);
    let mut i: usize = 0;
    while i < v.len() && v[i] != c
        invariant
            v@ == s@,
            i <= v.len(),
            forall|j: int| 0 <= j < i ==> v@[j] != c,
        decreases v.len() - i,
    {
        i = i + 1;
    }
    if i == v.len() {
        proof {
            lemma_split_at_first_absent(s@, c);
        }
        None
    } else {
        proof {
            lemma_split_at_first_found(s@, c, i as int);
        }
        let before = String::from_str(s.substring_char(0, i));
        let after = String::from_str(s.substring_char(i + 1, v.len()));
        assert(s@.subrange(0, i as int) =~= s@.take(i as int));
        assert(s@.subrange(i + 1, v.len() as int) =~= s@.skip(i + 1));
        Some((before, after))
    }
}

} // verus!
