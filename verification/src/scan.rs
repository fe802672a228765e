//! Character-level scanning over strings: first-occurrence splitting,
//! whitespace trimming, and string comparison, each with a mathematical
//! counterpart over `Seq<char>` so that token and flag parsing can be
//! specified exactly.

use vstd::prelude::*;

verus! {

/// Splits `t` at the first occurrence of `sep`: the part before it and the
/// part after it, or `None` when `sep` does not occur.
pub open spec fn split_at_first(sep: char, t: Seq<char>) -> Option<(Seq<char>, Seq<char>)>
    decreases t.len(),
{
    if t.len() == 0 {
        None
    } else if t[0] == sep {
        Some((Seq::empty(), t.drop_first()))
    } else {
        match split_at_first(sep, t.drop_first()) {
            Some(p) => Some((seq![t[0]] + p.0, p.1)),
            None => None,
        }
    }
}

/// `split_at_first` finds nothing exactly when `sep` does not occur.
pub proof fn lemma_split_none(sep: char, t: Seq<char>)
    ensures
        split_at_first(sep, t) is None <==> (forall|i: int| 0 <= i < t.len() ==> t[i] != sep),
    decreases t.len(),
{
    if t.len() > 0 && t[0] != sep {
        lemma_split_none(sep, t.drop_first());
        if split_at_first(sep, t) is None {
            assert forall|i: int| 0 <= i < t.len() implies t[i] != sep by {
                if i > 0 {
                    assert(t.drop_first()[i - 1] == t[i]);
                }
            }
        }
        if forall|i: int| 0 <= i < t.len() ==> t[i] != sep {
            assert(forall|i: int|
                0 <= i < t.drop_first().len() ==> t.drop_first()[i] == t[i + 1]);
        }
    }
}

/// What a successful split means: the separator-free prefix, the separator,
/// and the remainder reassemble into the input.
pub proof fn lemma_split_some(sep: char, t: Seq<char>, a: Seq<char>, b: Seq<char>)
    requires
        split_at_first(sep, t) == Some((a, b)),
    ensures
        t =~= a + seq![sep] + b,
        forall|i: int| 0 <= i < a.len() ==> a[i] != sep,
        b.len() == t.len() - a.len() - 1,
    decreases t.len(),
{
    if t.len() > 0 && t[0] != sep {
        let p = split_at_first(sep, t.drop_first()).unwrap();
        lemma_split_some(sep, t.drop_first(), p.0, p.1);
        assert(a == seq![t[0]] + p.0);
        assert(t =~= seq![t[0]] + t.drop_first());
        assert(t =~= a + seq![sep] + b);
        assert forall|i: int| 0 <= i < a.len() implies a[i] != sep by {
            if i > 0 {
                assert(a[i] == p.0[i - 1]);
            }
        }
    }
}

/// The converse: a separator-free prefix pins the split down.
pub proof fn lemma_split_of_concat(sep: char, a: Seq<char>, b: Seq<char>)
    requires
        forall|i: int| 0 <= i < a.len() ==> a[i] != sep,
    ensures
        split_at_first(sep, a + seq![sep] + b) == Some((a, b)),
    decreases a.len(),
{
    let t = a + seq![sep] + b;
    if a.len() == 0 {
        assert(t[0] == sep);
        assert(t.drop_first() =~= b);
        assert(a =~= Seq::<char>::empty());
    } else {
        assert(t[0] == a[0]);
        assert(t.drop_first() =~= a.drop_first() + seq![sep] + b);
        lemma_split_of_concat(sep, a.drop_first(), b);
        let p = split_at_first(sep, t.drop_first()).unwrap();
        assert(seq![t[0]] + p.0 =~= a);
    }
}

/// A split located by index: if `sep` first occurs at position `i`, the two
/// parts are the subranges on either side of it.
pub proof fn lemma_split_at_index(sep: char, t: Seq<char>, i: int)
    requires
        0 <= i < t.len(),
        t[i] == sep,
        forall|j: int| 0 <= j < i ==> t[j] != sep,
    ensures
        split_at_first(sep, t) == Some((t.subrange(0, i), t.subrange(i + 1, t.len() as int))),
{
    let a = t.subrange(0, i);
    let b = t.subrange(i + 1, t.len() as int);
    assert(t =~= a + seq![sep] + b);
    lemma_split_of_concat(sep, a, b);
}

/// Finds the first occurrence of `sep` in `s`, scanning left to right.
pub fn find_char(s: &str, sep: char) -> (r: Option<usize>)
    ensures
        match r {
            Some(i) => {
                &&& i < s@.len()
                &&& s@[i as int] == sep
                &&& forall|j: int| 0 <= j < i ==> s@[j] != sep
            },
            None => forall|j: int| 0 <= j < s@.len() ==> s@[j] != sep,
        },
{
    let n = s.unicode_len();
    let mut i: usize = 0;
    while i < n
        invariant
            n == s@.len(),
            0 <= i <= n,
            forall|j: int| 0 <= j < i ==> s@[j] != sep,
        decreases n - i,
    {
        if s.get_char(i) == sep {
            return Some(i);
        }
        i = i + 1;
    }
    None
}

/// Character-for-character string equality.
pub fn str_eq(a: &str, b: &str) -> (r: bool)
    ensures
        r == (a@ == b@),
{
    let n = a.unicode_len();
    if n != b.unicode_len() {
        return false;
    }
    let mut i: usize = 0;
    while i < n
        invariant
            n == a@.len(),
            n == b@.len(),
            0 <= i <= n,
            forall|j: int| 0 <= j < i ==> a@[j] == b@[j],
        decreases n - i,
    {
        if a.get_char(i) != b.get_char(i) {
            return false;
        }
        i = i + 1;
    }
    proof {
        assert(a@ =~= b@);
    }
    true
}

/// `s` without its leading spaces.
pub open spec fn ltrim(s: Seq<char>) -> Seq<char>
    decreases s.len(),
{
    if s.len() > 0 && s[0] == ' ' {
        ltrim(s.drop_first())
    } else {
        s
    }
}

/// `s` without its trailing spaces.
pub open spec fn rtrim(s: Seq<char>) -> Seq<char>
    decreases s.len(),
{
    if s.len() > 0 && s[s.len() - 1] == ' ' {
        rtrim(s.drop_last())
    } else {
        s
    }
}

/// `s` without leading or trailing spaces.
pub open spec fn trim(s: Seq<char>) -> Seq<char> {
    rtrim(ltrim(s))
}

/// Prepending spaces does not change the left-trimmed value.
pub proof fn lemma_ltrim_spaces_prefix(lead: Seq<char>, x: Seq<char>)
    requires
        forall|i: int| 0 <= i < lead.len() ==> lead[i] == ' ',
    ensures
        ltrim(lead + x) == ltrim(x),
    decreases lead.len(),
{
    if lead.len() == 0 {
        assert(lead + x =~= x);
    } else {
        let t = lead + x;
        assert(t[0] == ' ');
        assert(t.drop_first() =~= lead.drop_first() + x);
        lemma_ltrim_spaces_prefix(lead.drop_first(), x);
    }
}

/// A string that does not start with a space is already left-trimmed.
pub proof fn lemma_ltrim_noop(x: Seq<char>)
    requires
        x.len() == 0 || x[0] != ' ',
    ensures
        ltrim(x) == x,
{
}

/// Dropping one trailing space does not change the right-trimmed value.
pub proof fn lemma_rtrim_append_space(x: Seq<char>)
    ensures
        rtrim(x + seq![' ']) == rtrim(x),
{
    let t = x + seq![' '];
    assert(t[t.len() - 1] == ' ');
    assert(t.drop_last() =~= x);
}

/// A string that does not end with a space is already right-trimmed.
pub proof fn lemma_rtrim_noop(x: Seq<char>)
    requires
        x.len() == 0 || x[x.len() - 1] != ' ',
    ensures
        rtrim(x) == x,
{
}

/// Trailing spaces after a space-free string right-trim away.
pub proof fn lemma_rtrim_space_pad(x: Seq<char>, pad: Seq<char>)
    requires
        forall|i: int| 0 <= i < pad.len() ==> pad[i] == ' ',
        forall|i: int| 0 <= i < x.len() ==> x[i] != ' ',
    ensures
        rtrim(x + pad) == x,
    decreases pad.len(),
{
    if pad.len() == 0 {
        assert(x + pad =~= x);
        lemma_rtrim_noop(x);
    } else {
        assert(x + pad =~= (x + pad.drop_last()) + seq![' ']);
        lemma_rtrim_append_space(x + pad.drop_last());
        lemma_rtrim_space_pad(x, pad.drop_last());
    }
}

/// A string whose right-trim is empty was nothing but spaces.
pub proof fn lemma_rtrim_all_spaces(x: Seq<char>)
    ensures
        rtrim(x).len() == 0 ==> forall|i: int| 0 <= i < x.len() ==> x[i] == ' ',
    decreases x.len(),
{
    if x.len() > 0 && x[x.len() - 1] == ' ' {
        lemma_rtrim_all_spaces(x.drop_last());
        if rtrim(x).len() == 0 {
            assert forall|i: int| 0 <= i < x.len() implies x[i] == ' ' by {
                if i < x.len() - 1 {
                    assert(x.drop_last()[i] == x[i]);
                }
            }
        }
    }
}

/// A space-free string surrounded by spaces trims back to itself.
pub proof fn lemma_trim_padded(lead: Seq<char>, x: Seq<char>, pad: Seq<char>)
    requires
        forall|i: int| 0 <= i < lead.len() ==> lead[i] == ' ',
        forall|i: int| 0 <= i < pad.len() ==> pad[i] == ' ',
        forall|i: int| 0 <= i < x.len() ==> x[i] != ' ',
        x.len() > 0,
    ensures
        trim(lead + x + pad) == x,
{
    assert(lead + x + pad =~= lead + (x + pad));
    lemma_ltrim_spaces_prefix(lead, x + pad);
    assert((x + pad)[0] == x[0]);
    lemma_ltrim_noop(x + pad);
    lemma_rtrim_space_pad(x, pad);
}

/// Returns `s` without leading or trailing spaces.
pub fn trim_spaces<'a>(s: &'a str) -> (r: &'a str)
    ensures
        r@ == trim(s@),
{
    let n = s.unicode_len();
    proof {
        assert(s@.subrange(0, n as int) =~= s@);
    }
    let mut lo: usize = 0;
    while lo < n && s.get_char(lo) == ' '
        invariant
            n == s@.len(),
            0 <= lo <= n,
            ltrim(s@) == ltrim(s@.subrange(lo as int, n as int)),
        decreases n - lo,
    {
        proof {
            let cur = s@.subrange(lo as int, n as int);
            assert(cur[0] == ' ');
            assert(cur.drop_first() =~= s@.subrange(lo as int + 1, n as int));
        }
        lo = lo + 1;
    }
    proof {
        let cur = s@.subrange(lo as int, n as int);
        assert(cur.len() == 0 || cur[0] != ' ');
        lemma_ltrim_noop(cur);
    }
    let mut hi: usize = n;
    while hi > lo && s.get_char(hi - 1) == ' '
        invariant
            n == s@.len(),
            0 <= lo <= hi <= n,
            ltrim(s@) == s@.subrange(lo as int, n as int),
            rtrim(s@.subrange(lo as int, n as int)) == rtrim(s@.subrange(lo as int, hi as int)),
        decreases hi,
    {
        proof {
            let cur = s@.subrange(lo as int, hi as int);
            assert(cur[cur.len() - 1] == ' ');
            assert(cur.drop_last() =~= s@.subrange(lo as int, hi as int - 1));
        }
        hi = hi - 1;
    }
    proof {
        let cur = s@.subrange(lo as int, hi as int);
        assert(cur.len() == 0 || cur[cur.len() - 1] != ' ');
        lemma_rtrim_noop(cur);
    }
    s.substring_char(lo, hi)
}

} // verus!
