//! Character-level text operations: white space, trimming, splitting a
//! comma-separated list, and substring search.
//!
//! Every operation is specified over `Seq<char>`, the view of `str` and `String`.

use vstd::prelude::*;

verus! {

/// Whether `c` has the Unicode `White_Space` property.
pub open spec fn is_whitespace(c: char) -> bool {
    let u = c as u32;
    ||| 0x09 <= u <= 0x0d
    ||| u == 0x20
    ||| u == 0x85
    ||| u == 0xa0
    ||| u == 0x1680
    ||| 0x2000 <= u <= 0x200a
    ||| u == 0x2028
    ||| u == 0x2029
    ||| u == 0x202f
    ||| u == 0x205f
    ||| u == 0x3000
}

/// `s` without its leading white space.
pub open spec fn trim_start(s: Seq<char>) -> Seq<char>
    decreases s.len(),
{
    if s.len() > 0 && is_whitespace(s[0]) {
        trim_start(s.skip(1))
    } else {
        s
    }
}

/// `s` without its trailing white space.
pub open spec fn trim_end(s: Seq<char>) -> Seq<char>
    decreases s.len(),
{
    if s.len() > 0 && is_whitespace(s.last()) {
        trim_end(s.drop_last())
    } else {
        s
    }
}

/// `s` without its leading and trailing white space.
pub open spec fn trim(s: Seq<char>) -> Seq<char> {
    trim_end(trim_start(s))
}

/// The number of white space characters at the start of `s`.
pub open spec fn leading_whitespace(s: Seq<char>) -> nat
    decreases s.len(),
{
    if s.len() > 0 && is_whitespace(s[0]) {
        1 + leading_whitespace(s.skip(1))
    } else {
        0
    }
}

/// The number of white space characters at the end of `s`.
pub open spec fn trailing_whitespace(s: Seq<char>) -> nat
    decreases s.len(),
{
    if s.len() > 0 && is_whitespace(s.last()) {
        1 + trailing_whitespace(s.drop_last())
    } else {
        0
    }
}

/// The index of the first comma of `s`, or `s.len()` where `s` has none.
pub open spec fn first_comma(s: Seq<char>) -> int
    decreases s.len(),
{
    if s.len() == 0 || s[0] == ',' {
        0
    } else {
        1 + first_comma(s.skip(1))
    }
}

/// The pieces of `s` between its commas, in order. A string without a comma
/// is its own single piece; `n` commas give `n + 1` pieces, empty ones included.
pub open spec fn split_commas(s: Seq<char>) -> Seq<Seq<char>>
    decreases s.len(),
{
    let k = first_comma(s);
    if 0 <= k < s.len() {
        seq![s.take(k)] + split_commas(s.skip(k + 1))
    } else {
        seq![s]
    }
}

/// The pieces `pieces` with a comma between every two of them.
pub open spec fn join_commas(pieces: Seq<Seq<char>>) -> Seq<char>
    decreases pieces.len(),
{
    if pieces.len() == 0 {
        Seq::empty()
    } else if pieces.len() == 1 {
        pieces[0]
    } else {
        pieces[0] + seq![','] + join_commas(pieces.skip(1))
    }
}

/// The entries of the comma-separated list `s`, each one trimmed.
pub open spec fn name_list(s: Seq<char>) -> Seq<Seq<char>> {
    split_commas(s).map_values(|piece: Seq<char>| trim(piece))
}

/// Whether `pat` stands in `s` at index `i`.
pub open spec fn occurs_at(s: Seq<char>, pat: Seq<char>, i: int) -> bool {
    0 <= i && i + pat.len() <= s.len() && s.subrange(i, i + pat.len()) == pat
}

/// Whether `pat` is a contiguous part of `s`.
pub open spec fn contains_text(s: Seq<char>, pat: Seq<char>) -> bool {
    exists|i: int| occurs_at(s, pat, i)
}

/// The views of a sequence of strings.
pub open spec fn name_seq(names: Seq<String>) -> Seq<Seq<char>> {
    names.map_values(|name: String| name@)
}

/// `trim_start` drops the longest run of white space that starts `s`.
pub proof fn lemma_trim_start(s: Seq<char>)
    ensures
        leading_whitespace(s) <= s.len(),
        trim_start(s) == s.skip(leading_whitespace(s) as int),
        forall|i: int| 0 <= i < leading_whitespace(s) ==> is_whitespace(s[i]),
        leading_whitespace(s) < s.len() ==> !is_whitespace(s[leading_whitespace(s) as int]),
    decreases s.len(),
{
    if s.len() > 0 && is_whitespace(s[0]) {
        let t = s.skip(1);
        lemma_trim_start(t);
        let n = leading_whitespace(t) as int;
        assert(t.skip(n) =~= s.skip(n + 1));
        assert forall|i: int| 0 <= i < n + 1 implies is_whitespace(s[i]) by {
            if i > 0 {
                assert(t[i - 1] == s[i]);
            }
        }
        if n + 1 < s.len() {
            assert(t[n] == s[n + 1]);
        }
    } else {
        assert(s.skip(0) =~= s);
    }
}

/// `trim_end` drops the longest run of white space that ends `s`.
pub proof fn lemma_trim_end(s: Seq<char>)
    ensures
        trailing_whitespace(s) <= s.len(),
        trim_end(s) == s.take(s.len() - trailing_whitespace(s)),
        forall|i: int| s.len() - trailing_whitespace(s) <= i < s.len() ==> is_whitespace(s[i]),
        trailing_whitespace(s) < s.len() ==> !is_whitespace(
            s[s.len() - trailing_whitespace(s) - 1],
        ),
    decreases s.len(),
{
    if s.len() > 0 && is_whitespace(s.last()) {
        let t = s.drop_last();
        lemma_trim_end(t);
        let n = trailing_whitespace(t) as int;
        assert(t.take(t.len() - n) =~= s.take(s.len() - (n + 1)));
        assert forall|i: int| s.len() - (n + 1) <= i < s.len() implies is_whitespace(s[i]) by {
            if i < t.len() {
                assert(t[i] == s[i]);
            }
        }
        if n + 1 < s.len() {
            assert(t[t.len() - n - 1] == s[s.len() - (n + 1) - 1]);
        }
    } else {
        assert(s.take(s.len() as int) =~= s);
    }
}

/// `trim(s)` is the part of `s` between its leading and its trailing white
/// space: what is cut off is white space, and what is left neither starts nor
/// ends with white space.
pub proof fn lemma_trim(s: Seq<char>)
    ensures
        ({
            let a = leading_whitespace(s) as int;
            let b = s.len() - trailing_whitespace(trim_start(s));
            &&& 0 <= a <= b <= s.len()
            &&& trim(s) == s.subrange(a, b)
            &&& forall|i: int| 0 <= i < a ==> is_whitespace(s[i])
            &&& forall|i: int| b <= i < s.len() ==> is_whitespace(s[i])
            &&& a < b ==> !is_whitespace(s[a]) && !is_whitespace(s[b - 1])
        }),
{
    lemma_trim_start(s);
    let a = leading_whitespace(s) as int;
    let t = trim_start(s);
    lemma_trim_end(t);
    let b = s.len() - trailing_whitespace(t);
    assert(t.take(t.len() - trailing_whitespace(t)) =~= s.subrange(a, b));
    assert forall|i: int| b <= i < s.len() implies is_whitespace(s[i]) by {
        assert(t[i - a] == s[i]);
    }
    if a < b {
        assert(t[0] == s[a]);
        assert(t[t.len() - trailing_whitespace(t) - 1] == s[b - 1]);
    }
}

/// `first_comma(s)` lies within `s`, no comma stands before it, and a comma
/// stands at it unless it is the length of `s`.
pub proof fn lemma_first_comma(s: Seq<char>)
    ensures
        0 <= first_comma(s) <= s.len(),
        forall|i: int| 0 <= i < first_comma(s) ==> s[i] != ',',
        first_comma(s) < s.len() ==> s[first_comma(s)] == ',',
    decreases s.len(),
{
    if s.len() == 0 || s[0] == ',' {
    } else {
        let t = s.skip(1);
        lemma_first_comma(t);
        assert forall|i: int| 0 <= i < first_comma(s) implies s[i] != ',' by {
            if i > 0 {
                assert(t[i - 1] == s[i]);
            }
        }
    }
}

/// An index with no comma before it, which holds a comma or ends `s`, is `first_comma(s)`.
pub proof fn lemma_first_comma_is(s: Seq<char>, k: int)
    requires
        0 <= k <= s.len(),
        forall|i: int| 0 <= i < k ==> s[i] != ',',
        k < s.len() ==> s[k] == ',',
    ensures
        first_comma(s) == k,
{
    lemma_first_comma(s);
}

/// Splitting never gives an empty list, no piece holds a comma, and the
/// pieces with commas between them are `s` again.
pub proof fn lemma_split_commas(s: Seq<char>)
    ensures
        split_commas(s).len() >= 1,
        join_commas(split_commas(s)) == s,
        forall|i: int, j: int|
            0 <= i < split_commas(s).len() && 0 <= j < split_commas(s)[i].len()
                ==> split_commas(s)[i][j] != ',',
    decreases s.len(),
{
    lemma_first_comma(s);
    let k = first_comma(s);
    if 0 <= k < s.len() {
        let rest = s.skip(k + 1);
        lemma_split_commas(rest);
        assert(split_commas(s).skip(1) =~= split_commas(rest));
        assert(s.take(k) + seq![','] + rest =~= s);
        assert forall|i: int, j: int|
            0 <= i < split_commas(s).len() && 0 <= j < split_commas(s)[i].len()
                implies split_commas(s)[i][j] != ',' by {
            if i == 0 {
                assert(split_commas(s)[0] == s.take(k));
            } else {
                assert(split_commas(s)[i] == split_commas(rest)[i - 1]);
            }
        }
    }
}

/// A list has at least one entry.
pub proof fn lemma_name_list_nonempty(s: Seq<char>)
    ensures
        name_list(s).len() >= 1,
{
    lemma_split_commas(s);
}

/// The list of a string whose first comma is at `k`: the trimmed text before
/// the comma, then the list of what follows it.
pub proof fn lemma_name_list_step(s: Seq<char>, k: int)
    requires
        0 <= k < s.len(),
        s[k] == ',',
        forall|i: int| 0 <= i < k ==> s[i] != ',',
    ensures
        name_list(s) == seq![trim(s.take(k))] + name_list(s.skip(k + 1)),
{
    lemma_first_comma_is(s, k);
    assert(name_list(s) =~= seq![trim(s.take(k))] + name_list(s.skip(k + 1)));
}

/// The list of a string without a comma is that string, trimmed.
pub proof fn lemma_name_list_last(s: Seq<char>)
    requires
        forall|i: int| 0 <= i < s.len() ==> s[i] != ',',
    ensures
        name_list(s) == seq![trim(s)],
{
    lemma_first_comma_is(s, s.len() as int);
    assert(name_list(s) =~= seq![trim(s)]);
}

/// Tells whether `c` is a white space character.
pub fn char_is_whitespace(c: char) -> (b: bool)
    ensures
        b == is_whitespace(c),
{
    let u: u32 = c as u32;
    (0x09 <= u && u <= 0x0d) || u == 0x20 || u == 0x85 || u == 0xa0 || u == 0x1680 || (0x2000 <= u
        && u <= 0x200a) || u == 0x2028 || u == 0x2029 || u == 0x202f || u == 0x205f || u == 0x3000
}

/// The characters of `s`, in order.
pub fn chars_of(s: &str) -> (v: Vec<char>)
    ensures
        v@ == s@,
{
    broadcast use vstd::string::axiom_spec_iter;

    let mut v: Vec<char> = Vec::new();
    for c in it: s.chars()
        invariant
            it.seq() == s@,
            v@ == s@.take(it.index()),
    {
        v.push(c);
    }
    v
}

/// The bounds of `chars[lo..hi]` once trimmed.
fn trim_bounds(chars: &Vec<char>, lo: usize, hi: usize) -> (r: (usize, usize))
    requires
        lo <= hi <= chars.len(),
    ensures
        lo <= r.0 <= r.1 <= hi,
        chars@.subrange(r.0 as int, r.1 as int) == trim(chars@.subrange(lo as int, hi as int)),
{
    let ghost whole = chars@.subrange(lo as int, hi as int);
    let mut a: usize = lo;
    while a < hi && char_is_whitespace(chars[a])
        invariant
            lo <= a <= hi <= chars.len(),
            trim_start(whole) == trim_start(chars@.subrange(a as int, hi as int)),
        decreases hi - a,
    {
        proof {
            let cur = chars@.subrange(a as int, hi as int);
            assert(cur[0] == chars@[a as int]);
            assert(cur.skip(1) =~= chars@.subrange(a + 1, hi as int));
        }
        a += 1;
    }
    proof {
        let cur = chars@.subrange(a as int, hi as int);
        if a < hi {
            assert(cur[0] == chars@[a as int]);
        }
        assert(trim_start(whole) == cur);
    }
    let mut b: usize = hi;
    while b > a && char_is_whitespace(chars[b - 1])
        invariant
            a <= b <= hi <= chars.len(),
            trim(whole) == trim_end(chars@.subrange(a as int, b as int)),
        decreases b - a,
    {
        proof {
            let cur = chars@.subrange(a as int, b as int);
            assert(cur.last() == chars@[b - 1]);
            assert(cur.drop_last() =~= chars@.subrange(a as int, b - 1));
        }
        b -= 1;
    }
    proof {
        let cur = chars@.subrange(a as int, b as int);
        if b > a {
            assert(cur.last() == chars@[b - 1]);
        }
    }
    (a, b)
}

/// Parses a comma-separated list: the entries in order, each one trimmed.
/// An empty entry stays, as an empty name.
pub fn parse_name_list(raw: &str) -> (names: Vec<String>)
    ensures
        name_seq(names@) == name_list(raw@),
        names.len() >= 1,
{
    let chars = chars_of(raw);
    let n = chars.len();
    let mut names: Vec<String> = Vec::new();
    let mut start: usize = 0;
    let mut i: usize = 0;
    assert(chars@.skip(0) =~= chars@);
    assert(name_seq(names@) =~= Seq::<Seq<char>>::empty());
    while i < n
        invariant
            chars@ == raw@,
            n == chars.len(),
            start <= i <= n,
            forall|j: int| start <= j < i ==> chars@[j] != ',',
            name_seq(names@) + name_list(chars@.skip(start as int)) == name_list(chars@),
        decreases n - i,
    {
        if chars[i] == ',' {
            let (a, b) = trim_bounds(&chars, start, i);
            let name = raw.substring_char(a, b).to_owned();
            proof {
                let rest = chars@.skip(start as int);
                let k = i - start;
                assert forall|j: int| 0 <= j < k implies rest[j] != ',' by {
                    assert(rest[j] == chars@[start + j]);
                }
                lemma_name_list_step(rest, k);
                assert(rest.take(k) =~= chars@.subrange(start as int, i as int));
                assert(rest.skip(k + 1) =~= chars@.skip(i + 1));
                assert(name_seq(names@.push(name)) =~= name_seq(names@) + seq![name@]);
                assert(name_seq(names@.push(name)) + name_list(chars@.skip(i + 1)) =~= name_seq(
                    names@,
                ) + name_list(rest));
            }
            names.push(name);
            start = i + 1;
        }
        i += 1;
    }
    let (a, b) = trim_bounds(&chars, start, n);
    let name = raw.substring_char(a, b).to_owned();
    proof {
        let rest = chars@.skip(start as int);
        assert forall|j: int| 0 <= j < rest.len() implies rest[j] != ',' by {
            assert(rest[j] == chars@[start + j]);
        }
        lemma_name_list_last(rest);
        assert(rest =~= chars@.subrange(start as int, n as int));
        assert(name_seq(names@.push(name)) =~= name_seq(names@) + seq![name@]);
    }
    names.push(name);
    names
}

/// Tells whether `pat` stands in `s` at index `i`.
fn chars_occur_at(s: &Vec<char>, pat: &Vec<char>, i: usize) -> (b: bool)
    requires
        i + pat.len() <= s.len(),
    ensures
        b == occurs_at(s@, pat@, i as int),
{
    let m = pat.len();
    let mut j: usize = 0;
    while j < m
        invariant
            m == pat.len(),
            i + m <= s.len(),
            j <= m,
            forall|k: int| 0 <= k < j ==> s@[i + k] == pat@[k],
        decreases m - j,
    {
        if s[i + j] != pat[j] {
            proof {
                let part = s@.subrange(i as int, i + m);
                assert(part[j as int] == s@[i + j]);
            }
            return false;
        }
        j += 1;
    }
    assert(s@.subrange(i as int, i + m) =~= pat@);
    true
}

/// Tells whether `pat` is a contiguous part of `s`. The empty text is part of any text.
pub fn contains(s: &str, pat: &str) -> (b: bool)
    ensures
        b == contains_text(s@, pat@),
{
    let text = chars_of(s);
    let want = chars_of(pat);
    let n = text.len();
    let m = want.len();
    if m > n {
        return false;
    }
    let last = n - m;
    let mut i: usize = 0;
    while i < last
        invariant
            n == text.len(),
            m == want.len(),
            last == n - m,
            i <= last,
            text@ == s@,
            want@ == pat@,
            forall|k: int| 0 <= k < i ==> !occurs_at(text@, want@, k),
        decreases last - i,
    {
        if chars_occur_at(&text, &want, i) {
            return true;
        }
        i += 1;
    }
    chars_occur_at(&text, &want, last)
}

} // verus!
