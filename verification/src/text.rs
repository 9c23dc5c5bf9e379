//! Character-level text utilities: whitespace trimming, prefix and suffix
//! stripping, character search, and line splitting, each specified over
//! `Seq<char>` views.

use vstd::prelude::*;
use vstd::string::*;

verus! {

/// Whitespace for the purposes of line cleanup: space, tab, carriage
/// return, newline.
pub open spec fn is_space(c: char) -> bool {
    c == ' ' || c == '\t' || c == '\r' || c == '\n'
}

/// `c` occurs somewhere in `s`.
pub open spec fn contains_char(s: Seq<char>, c: char) -> bool {
    exists|i: int| 0 <= i < s.len() && s[i] == c
}

/// Some whitespace character occurs somewhere in `s`.
pub open spec fn contains_space(s: Seq<char>) -> bool {
    exists|i: int| 0 <= i < s.len() && is_space(s[i])
}

/// `p` is a prefix of `s`.
pub open spec fn starts_with(s: Seq<char>, p: Seq<char>) -> bool {
    s.len() >= p.len() && s.take(p.len() as int) == p
}

/// `s` is non-empty and ends with the character `c`.
pub open spec fn ends_with_char(s: Seq<char>, c: char) -> bool {
    s.len() > 0 && s[s.len() - 1] == c
}

/// `s` with its leading whitespace removed.
pub open spec fn trim_front(s: Seq<char>) -> Seq<char>
    decreases s.len(),
{
    if s.len() == 0 {
        s
    } else if is_space(s[0]) {
        trim_front(s.skip(1))
    } else {
        s
    }
}

/// `s` with its trailing whitespace removed.
pub open spec fn trim_back(s: Seq<char>) -> Seq<char>
    decreases s.len(),
{
    if s.len() == 0 {
        s
    } else if is_space(s[s.len() - 1]) {
        trim_back(s.take(s.len() - 1))
    } else {
        s
    }
}

/// `s` with leading and trailing whitespace removed.
pub open spec fn trimmed(s: Seq<char>) -> Seq<char> {
    trim_back(trim_front(s))
}

/// `s` with every leading occurrence of the (non-empty) prefix `p`
/// removed.
pub open spec fn strip_prefix_all(s: Seq<char>, p: Seq<char>) -> Seq<char>
    decreases s.len(),
{
    if p.len() > 0 && starts_with(s, p) {
        strip_prefix_all(s.skip(p.len() as int), p)
    } else {
        s
    }
}

/// `s` with every trailing occurrence of the character `c` removed.
pub open spec fn strip_suffix_all(s: Seq<char>, c: char) -> Seq<char>
    decreases s.len(),
{
    if s.len() > 0 && s[s.len() - 1] == c {
        strip_suffix_all(s.take(s.len() - 1), c)
    } else {
        s
    }
}

/// Index of the first newline in `s`, or `s.len()` when there is none.
pub open spec fn find_nl(s: Seq<char>) -> int
    decreases s.len(),
{
    if s.len() == 0 {
        0
    } else if s[0] == '\n' {
        0
    } else {
        1 + find_nl(s.skip(1))
    }
}

/// The lines of `s`, split on `'\n'`; a final segment after the last
/// newline is a line only when it is non-empty, so a newline-terminated
/// text yields no trailing empty line.
pub open spec fn line_split(s: Seq<char>) -> Seq<Seq<char>>
    decreases s.len(),
{
    if s.len() == 0 {
        Seq::empty()
    } else if s[0] == '\n' {
        seq![Seq::<char>::empty()] + line_split(s.skip(1))
    } else {
        let rest = line_split(s.skip(1));
        if rest.len() == 0 {
            seq![seq![s[0]]]
        } else {
            seq![seq![s[0]] + rest[0]] + rest.skip(1)
        }
    }
}

/// If the characters of `s` before `i` are whitespace and `s[i]` (when it
/// exists) is not, then trimming the front of `s` drops exactly `i`
/// characters.
pub proof fn lemma_trim_front_range(s: Seq<char>, i: int)
    requires
        0 <= i <= s.len(),
        forall|k: int| 0 <= k < i ==> is_space(s[k]),
        i == s.len() || !is_space(s[i]),
    ensures
        trim_front(s) == s.skip(i),
    decreases i,
{
    if i == 0 {
        assert(s.skip(0) =~= s);
    } else {
        assert(is_space(s[0]));
        lemma_trim_front_range(s.skip(1), i - 1);
        assert(s.skip(1).skip(i - 1) =~= s.skip(i));
    }
}

/// If the characters of `s` from `j` on are whitespace and `s[j - 1]`
/// (when it exists) is not, then trimming the back of `s` keeps exactly
/// the first `j` characters.
pub proof fn lemma_trim_back_range(s: Seq<char>, j: int)
    requires
        0 <= j <= s.len(),
        forall|k: int| j <= k < s.len() ==> is_space(s[k]),
        j == 0 || !is_space(s[j - 1]),
    ensures
        trim_back(s) == s.take(j),
    decreases s.len() - j,
{
    if j == s.len() {
        if s.len() == 0 {
            assert(s.take(0) =~= s);
        } else {
            assert(s.take(s.len() as int) =~= s);
        }
    } else {
        assert(is_space(s[s.len() - 1]));
        lemma_trim_back_range(s.take(s.len() - 1), j);
        assert(s.take(s.len() - 1).take(j) =~= s.take(j));
    }
}

/// A string without any whitespace character is unchanged by trimming.
pub proof fn lemma_trimmed_no_space(s: Seq<char>)
    requires
        !contains_space(s),
    ensures
        trimmed(s) == s,
{
    if s.len() == 0 {
        lemma_trim_front_range(s, 0);
        lemma_trim_back_range(s, 0);
        assert(s.take(0) =~= s);
    } else {
        lemma_trim_front_range(s, 0);
        lemma_trim_back_range(s, s.len() as int);
    }
}

/// Characterization of `line_split` by the position of the first newline:
/// the first line runs to that position, and the remaining lines are the
/// split of what follows it.
pub proof fn lemma_line_split_first(s: Seq<char>, i: int)
    requires
        0 <= i <= s.len(),
        forall|k: int| 0 <= k < i ==> s[k] != '\n',
        i == s.len() || s[i] == '\n',
    ensures
        s.len() == 0 ==> line_split(s) == Seq::<Seq<char>>::empty(),
        s.len() > 0 && i == s.len() ==> line_split(s) == seq![s],
        i < s.len() ==> line_split(s) == seq![s.take(i)] + line_split(s.skip(i + 1)),
    decreases i,
{
    if s.len() == 0 {
    } else if i == 0 {
        assert(s[0] == '\n');
        assert(s.take(0) =~= Seq::<char>::empty());
        assert(line_split(s) =~= seq![s.take(0)] + line_split(s.skip(1)));
    } else {
        assert(s[0] != '\n');
        let t = s.skip(1);
        lemma_line_split_first(t, i - 1);
        let rest = line_split(t);
        if t.len() == 0 {
            assert(i == 1 && s.len() == 1);
            assert(line_split(s) == seq![seq![s[0]]]);
            assert(seq![s[0]] =~= s);
        } else if i - 1 == t.len() {
            assert(rest == seq![t]);
            assert(seq![s[0]] + rest[0] =~= s);
            assert(rest.skip(1) =~= Seq::<Seq<char>>::empty());
            assert(line_split(s) =~= seq![s]);
        } else {
            assert(rest == seq![t.take(i - 1)] + line_split(t.skip(i)));
            assert(rest.len() > 0);
            assert(rest[0] == t.take(i - 1));
            assert(seq![s[0]] + t.take(i - 1) =~= s.take(i));
            assert(rest.skip(1) =~= line_split(t.skip(i)));
            assert(t.skip(i) =~= s.skip(i + 1));
            assert(line_split(s) =~= seq![s.take(i)] + line_split(s.skip(i + 1)));
        }
    }
}

/// Whether the character `c` is whitespace in the sense of `is_space`.
pub fn char_is_space(c: char) -> (b: bool)
    ensures
        b == is_space(c),
{
    c == ' ' || c == '\t' || c == '\r' || c == '\n'
}

/// True when `c` occurs in `s`.
pub fn str_contains_char(s: &str, c: char) -> (b: bool)
    ensures
        b == contains_char(s@, c),
{
    let n: usize = s.unicode_len();
    let mut i: usize = 0;
    while i < n
        invariant
            n == s@.len(),
            i <= n,
            forall|k: int| 0 <= k < i ==> s@[k] != c,
        decreases n - i,
    {
        if s.get_char(i) == c {
            return true;
        }
        i = i + 1;
    }
    false
}

/// True when some whitespace character occurs in `s`.
pub fn str_contains_space(s: &str) -> (b: bool)
    ensures
        b == contains_space(s@),
{
    let n: usize = s.unicode_len();
    let mut i: usize = 0;
    while i < n
        invariant
            n == s@.len(),
            i <= n,
            forall|k: int| 0 <= k < i ==> !is_space(s@[k]),
        decreases n - i,
    {
        if char_is_space(s.get_char(i)) {
            return true;
        }
        i = i + 1;
    }
    false
}

/// True when the two strings hold the same characters.
pub fn str_eq(a: &str, b: &str) -> (r: bool)
    ensures
        r == (a@ == b@),
{
    let n: usize = a.unicode_len();
    if n != b.unicode_len() {
        return false;
    }
    let mut i: usize = 0;
    while i < n
        invariant
            n == a@.len(),
            n == b@.len(),
            i <= n,
            forall|k: int| 0 <= k < i ==> a@[k] == b@[k],
        decreases n - i,
    {
        if a.get_char(i) != b.get_char(i) {
            return false;
        }
        i = i + 1;
    }
    proof {
        assert(a@ =~= b@);
    }
    true
}

/// `s` with leading and trailing whitespace removed.
pub fn trim(s: &str) -> (r: &str)
    ensures
        r@ == trimmed(s@),
{
    let n: usize = s.unicode_len();
    let mut a: usize = 0;
    while a < n && char_is_space(s.get_char(a))
        invariant
            n == s@.len(),
            a <= n,
            forall|k: int| 0 <= k < a ==> is_space(s@[k]),
        decreases n - a,
    {
        a = a + 1;
    }
    let mut b: usize = n;
    while b > a && char_is_space(s.get_char(b - 1))
        invariant
            n == s@.len(),
            a <= b <= n,
            forall|k: int| 0 <= k < a ==> is_space(s@[k]),
            forall|k: int| b <= k < n ==> is_space(s@[k]),
        decreases b,
    {
        b = b - 1;
    }
    proof {
        lemma_trim_front_range(s@, a as int);
        let t = s@.skip(a as int);
        lemma_trim_back_range(t, b - a as int);
        assert(t.take(b - a as int) =~= s@.subrange(a as int, b as int));
    }
    s.substring_char(a, b)
}

/// True when `p` is a prefix of `s`.
pub fn str_starts_with(s: &str, p: &str) -> (b: bool)
    ensures
        b == starts_with(s@, p@),
{
    let sn: usize = s.unicode_len();
    let pn: usize = p.unicode_len();
    if sn < pn {
        return false;
    }
    let mut i: usize = 0;
    while i < pn
        invariant
            sn == s@.len(),
            pn == p@.len(),
            pn <= sn,
            i <= pn,
            forall|k: int| 0 <= k < i ==> s@[k] == p@[k],
        decreases pn - i,
    {
        if s.get_char(i) != p.get_char(i) {
            proof {
                assert(s@.take(pn as int)[i as int] == s@[i as int]);
            }
            return false;
        }
        i = i + 1;
    }
    proof {
        assert(s@.take(pn as int) =~= p@);
    }
    true
}

/// `s` with every leading occurrence of `p` removed.
pub fn str_strip_prefix_all<'a>(s: &'a str, p: &str) -> (r: &'a str)
    requires
        p@.len() > 0,
    ensures
        r@ == strip_prefix_all(s@, p@),
{
    let pn: usize = p.unicode_len();
    let mut cur: &str = s;
    let mut go: bool = str_starts_with(cur, p);
    while go
        invariant
            pn == p@.len(),
            pn > 0,
            go == starts_with(cur@, p@),
            strip_prefix_all(s@, p@) == strip_prefix_all(cur@, p@),
        decreases cur@.len(),
    {
        let cn: usize = cur.unicode_len();
        let next = cur.substring_char(pn, cn);
        proof {
            assert(next@ =~= cur@.skip(pn as int));
            assert(strip_prefix_all(cur@, p@) == strip_prefix_all(cur@.skip(pn as int), p@));
        }
        cur = next;
        go = str_starts_with(cur, p);
    }
    cur
}

/// `s` with every trailing occurrence of the character `c` removed.
pub fn str_strip_suffix_all<'a>(s: &'a str, c: char) -> (r: &'a str)
    ensures
        r@ == strip_suffix_all(s@, c),
{
    let n: usize = s.unicode_len();
    let mut end: usize = n;
    proof {
        assert(s@.take(n as int) =~= s@);
    }
    while end > 0 && s.get_char(end - 1) == c
        invariant
            n == s@.len(),
            end <= n,
            strip_suffix_all(s@, c) == strip_suffix_all(s@.take(end as int), c),
        decreases end,
    {
        proof {
            let t = s@.take(end as int);
            assert(t[t.len() - 1] == c);
            assert(t.take(t.len() - 1) =~= s@.take(end - 1));
        }
        end = end - 1;
    }
    proof {
        let t = s@.take(end as int);
        if end > 0 {
            assert(t[t.len() - 1] != c);
        }
        assert(strip_suffix_all(t, c) == t);
        assert(t =~= s@.subrange(0, end as int));
    }
    s.substring_char(0, end)
}

/// The lines of `s`, split on `'\n'`.
pub fn split_lines(s: &str) -> (r: Vec<String>)
    ensures
        r.deep_view() == line_split(s@),
{
    let n: usize = s.unicode_len();
    let mut r: Vec<String> = Vec::new();
    let mut start: usize = 0;
    proof {
        assert(s@.skip(0) =~= s@);
        assert(r.deep_view() =~= Seq::<Seq<char>>::empty());
    }
    while start < n
        invariant
            n == s@.len(),
            start <= n,
            line_split(s@) == r.deep_view() + line_split(s@.skip(start as int)),
        decreases n - start,
    {
        let mut j: usize = start;
        while j < n && s.get_char(j) != '\n'
            invariant
                n == s@.len(),
                start <= j <= n,
                forall|k: int| start <= k < j ==> s@[k] != '\n',
            decreases n - j,
        {
            j = j + 1;
        }
        let line = s.substring_char(start, j);
        let ghost old_deep = r.deep_view();
        r.push(String::from_str(line));
        proof {
            assert(r.deep_view() =~= old_deep.push(line@));
            let suf = s@.skip(start as int);
            assert(forall|k: int| 0 <= k < j - start ==> suf[k] == s@[k + start] && suf[k] != '\n');
            if j < n {
                assert(suf[j - start] == s@[j as int]);
            }
            lemma_line_split_first(suf, j - start);
            assert(suf.take(j - start) =~= line@);
            if j < n {
                assert(suf.skip(j - start + 1) =~= s@.skip(j + 1));
                assert(line_split(suf) == seq![line@] + line_split(s@.skip(j + 1)));
                assert(r.deep_view() + line_split(s@.skip(j + 1)) =~= old_deep + line_split(suf));
            } else {
                assert(suf.len() > 0);
                assert(line_split(suf) == seq![suf]);
                assert(suf =~= line@);
                assert(s@.skip(n as int) =~= Seq::<char>::empty());
                assert(r.deep_view() + line_split(s@.skip(n as int)) =~= old_deep + line_split(suf));
            }
        }
        if j < n {
            start = j + 1;
        } else {
            start = n;
        }
    }
    proof {
        assert(s@.skip(n as int) =~= Seq::<char>::empty());
        assert(line_split(s@) =~= r.deep_view());
    }
    r
}

} // verus!
