//! Text as sequences of characters: trimming, line splitting, searching and
//! joining, each with its mathematical definition and a verified
//! implementation over `Vec<char>`.

use vstd::prelude::*;

verus! {

/// Whether `c` is white space: one of the characters with the Unicode
/// property `White_Space`.
pub open spec fn is_whitespace(c: char) -> bool {
    let n = c as u32;
    ||| 0x09 <= n <= 0x0D
    ||| n == 0x20
    ||| n == 0x85
    ||| n == 0xA0
    ||| n == 0x1680
    ||| 0x2000 <= n <= 0x200A
    ||| n == 0x2028
    ||| n == 0x2029
    ||| n == 0x202F
    ||| n == 0x205F
    ||| n == 0x3000
}

/// The lowercase form of `s`, as `str::to_lowercase` computes it.
pub uninterp spec fn lowercase(s: Seq<char>) -> Seq<char>;

/// Whether `c` is white space.
pub fn char_is_whitespace(c: char) -> (b: bool)
    ensures
        b == is_whitespace(c),
{
    let n: u32 = c as u32;
    (0x09 <= n && n <= 0x0D) || n == 0x20 || n == 0x85 || n == 0xA0 || n == 0x1680 || (0x2000
        <= n && n <= 0x200A) || n == 0x2028 || n == 0x2029 || n == 0x202F || n == 0x205F || n
        == 0x3000
}

/// Calls `str::to_lowercase`. The result is, by definition, the value of
/// [`lowercase`] on the text.
#[verifier::external_body]
pub(crate) fn to_lowercase(s: &str) -> (r: String)
    ensures
        r@ == lowercase(s@),
{
    s.to_lowercase()
}

/// Calls `String::push`: the character is appended, the rest is unchanged.
#[verifier::external_body]
pub(crate) fn push_char(s: &mut String, c: char)
    ensures
        final(s)@ == old(s)@.push(c),
{
    s.push(c)
}

/// The characters of `s`.
pub fn chars_of(s: &str) -> (v: Vec<char>)
    ensures
        v@ == s@,
{
    broadcast use vstd::string::group_string_axioms;

    let mut v: Vec<char> = Vec::new();
    for c in it: s.chars()
        invariant
            it.seq() == s@,
            v@ == it.seq().take(it.index() as int),
    {
        v.push(c);
    }
    assert(v@ == s@);
    v
}

/// The string made of the characters `v[from..to]`.
pub(crate) fn string_of_range(v: &Vec<char>, from: usize, to: usize) -> (s: String)
    requires
        from <= to <= v.len(),
    ensures
        s@ == v@.subrange(from as int, to as int),
{
    let mut s = String::new();
    let mut i: usize = from;
    while i < to
        invariant
            from <= i <= to <= v.len(),
            s@ == v@.subrange(from as int, i as int),
        decreases to - i,
    {
        push_char(&mut s, v[i]);
        i += 1;
        assert(v@.subrange(from as int, i as int) == v@.subrange(from as int, i - 1).push(
            v@[i - 1],
        ));
    }
    s
}

/// The string made of the characters of `v`.
pub fn string_of(v: &Vec<char>) -> (s: String)
    ensures
        s@ == v@,
{
    let s = string_of_range(v, 0, v.len());
    assert(v@.subrange(0, v@.len() as int) == v@);
    s
}

/// The number of white-space characters at the start of `s`.
pub open spec fn leading_space(s: Seq<char>) -> nat
    decreases s.len(),
{
    if s.len() > 0 && is_whitespace(s[0]) {
        1 + leading_space(s.drop_first())
    } else {
        0
    }
}

/// The number of white-space characters at the end of `s`.
pub open spec fn trailing_space(s: Seq<char>) -> nat
    decreases s.len(),
{
    if s.len() > 0 && is_whitespace(s.last()) {
        1 + trailing_space(s.drop_last())
    } else {
        0
    }
}

/// `s` without its leading white space.
pub open spec fn trim_start(s: Seq<char>) -> Seq<char> {
    s.subrange(leading_space(s) as int, s.len() as int)
}

/// `s` without its trailing white space.
pub open spec fn trim_end(s: Seq<char>) -> Seq<char> {
    s.subrange(0, s.len() - trailing_space(s))
}

/// `s` without its leading and trailing white space.
pub open spec fn trim(s: Seq<char>) -> Seq<char> {
    trim_end(trim_start(s))
}

/// The index at which the text of `v[from..to]` starts once its leading
/// white space is dropped.
fn skip_leading(v: &Vec<char>, from: usize, to: usize) -> (i: usize)
    requires
        from <= to <= v.len(),
    ensures
        from <= i <= to,
        i == from + leading_space(v@.subrange(from as int, to as int)),
{
    let mut i: usize = from;
    while i < to && char_is_whitespace(v[i])
        invariant
            from <= i <= to <= v.len(),
            leading_space(v@.subrange(from as int, to as int)) == (i - from) + leading_space(
                v@.subrange(i as int, to as int),
            ),
        decreases to - i,
    {
        assert(v@.subrange(i as int, to as int).drop_first() == v@.subrange(i + 1, to as int));
        i += 1;
    }
    i
}

/// The index at which the text of `v[from..to]` ends once its trailing
/// white space is dropped.
fn skip_trailing(v: &Vec<char>, from: usize, to: usize) -> (j: usize)
    requires
        from <= to <= v.len(),
    ensures
        from <= j <= to,
        j == to - trailing_space(v@.subrange(from as int, to as int)),
{
    let mut j: usize = to;
    while j > from && char_is_whitespace(v[j - 1])
        invariant
            from <= j <= to <= v.len(),
            trailing_space(v@.subrange(from as int, to as int)) == (to - j) + trailing_space(
                v@.subrange(from as int, j as int),
            ),
        decreases j - from,
    {
        assert(v@.subrange(from as int, j as int).drop_last() == v@.subrange(
            from as int,
            j - 1,
        ));
        j -= 1;
    }
    j
}

/// The bounds of the trimmed text of `v[from..to]`.
pub(crate) fn trim_range(v: &Vec<char>, from: usize, to: usize) -> (r: (usize, usize))
    requires
        from <= to <= v.len(),
    ensures
        from <= r.0 <= r.1 <= to,
        v@.subrange(r.0 as int, r.1 as int) == trim(v@.subrange(from as int, to as int)),
{
    let i = skip_leading(v, from, to);
    let j = skip_trailing(v, i, to);
    proof {
        let s = v@.subrange(from as int, to as int);
        assert(trim_start(s) == v@.subrange(i as int, to as int));
        assert(trim_end(v@.subrange(i as int, to as int)) == v@.subrange(i as int, j as int));
    }
    (i, j)
}

/// The characters `v[from..to]`.
pub(crate) fn copy_range(v: &Vec<char>, from: usize, to: usize) -> (r: Vec<char>)
    requires
        from <= to <= v.len(),
    ensures
        r@ == v@.subrange(from as int, to as int),
{
    let mut r: Vec<char> = Vec::new();
    let mut i: usize = from;
    while i < to
        invariant
            from <= i <= to <= v.len(),
            r@ == v@.subrange(from as int, i as int),
        decreases to - i,
    {
        r.push(v[i]);
        i += 1;
        assert(v@.subrange(from as int, i as int) == v@.subrange(from as int, i - 1).push(
            v@[i - 1],
        ));
    }
    r
}

/// `v` without its leading and trailing white space.
pub fn trimmed(v: &Vec<char>) -> (r: Vec<char>)
    ensures
        r@ == trim(v@),
{
    let (i, j) = trim_range(v, 0, v.len());
    assert(v@.subrange(0, v@.len() as int) == v@);
    copy_range(v, i, j)
}

/// The index of the first `c` in `s`, or the length of `s` where there is
/// none.
pub open spec fn first_index(s: Seq<char>, c: char) -> nat
    decreases s.len(),
{
    if s.len() == 0 || s[0] == c {
        0
    } else {
        1 + first_index(s.drop_first(), c)
    }
}

/// `first_index` stays within the text, stops at an occurrence, and passes
/// over none.
pub proof fn lemma_first_index(s: Seq<char>, c: char)
    ensures
        first_index(s, c) <= s.len(),
        first_index(s, c) < s.len() ==> s[first_index(s, c) as int] == c,
        forall|k: int| 0 <= k < first_index(s, c) ==> s[k] != c,
        first_index(s, c) < s.len() <==> s.contains(c),
    decreases s.len(),
{
    if s.len() == 0 || s[0] == c {
        if s.len() > 0 {
            assert(s.contains(c));
        }
    } else {
        let t = s.drop_first();
        lemma_first_index(t, c);
        assert forall|k: int| 0 <= k < first_index(s, c) implies s[k] != c by {
            if k > 0 {
                assert(s[k] == t[k - 1]);
            }
        }
        if first_index(t, c) < t.len() {
            assert(s[first_index(s, c) as int] == t[first_index(t, c) as int]);
            assert(s.contains(c));
        }
        if s.contains(c) {
            let k = choose|k: int| 0 <= k < s.len() && s[k] == c;
            assert(t[k - 1] == c);
            assert(t.contains(c));
        }
    }
}

/// The position of the first `c` in `v[from..to]`, or `to`.
pub(crate) fn find_char(v: &Vec<char>, from: usize, to: usize, c: char) -> (i: usize)
    requires
        from <= to <= v.len(),
    ensures
        from <= i <= to,
        i == from + first_index(v@.subrange(from as int, to as int), c),
{
    let mut i: usize = from;
    while i < to && v[i] != c
        invariant
            from <= i <= to <= v.len(),
            first_index(v@.subrange(from as int, to as int), c) == (i - from) + first_index(
                v@.subrange(i as int, to as int),
                c,
            ),
        decreases to - i,
    {
        assert(v@.subrange(i as int, to as int).drop_first() == v@.subrange(i + 1, to as int));
        i += 1;
    }
    i
}

/// Whether `c` occurs in `v[from..to]`.
pub(crate) fn range_contains(v: &Vec<char>, from: usize, to: usize, c: char) -> (b: bool)
    requires
        from <= to <= v.len(),
    ensures
        b == v@.subrange(from as int, to as int).contains(c),
{
    let i = find_char(v, from, to, c);
    proof {
        lemma_first_index(v@.subrange(from as int, to as int), c);
    }
    i < to
}

/// Whether `pat` occurs in `s` at index `i`.
pub open spec fn occurs_at(s: Seq<char>, pat: Seq<char>, i: int) -> bool {
    0 <= i && i + pat.len() <= s.len() && s.subrange(i, i + pat.len()) == pat
}

/// Whether `pat` occurs somewhere in `s`.
pub open spec fn contains_text(s: Seq<char>, pat: Seq<char>) -> bool {
    exists|i: int| occurs_at(s, pat, i)
}

/// Whether `pat` occurs in `v` at index `i`.
fn matches_at(v: &Vec<char>, pat: &Vec<char>, i: usize) -> (b: bool)
    ensures
        b == occurs_at(v@, pat@, i as int),
{
    if pat.len() > v.len() || i > v.len() - pat.len() {
        return false;
    }
    let mut k: usize = 0;
    while k < pat.len()
        invariant
            i + pat.len() <= v.len(),
            k <= pat.len(),
            forall|j: int| 0 <= j < k ==> v@[i + j] == pat@[j],
        decreases pat.len() - k,
    {
        if v[i + k] != pat[k] {
            proof {
                let sub = v@.subrange(i as int, i + pat@.len());
                assert(sub[k as int] == v@[i + k]);
            }
            return false;
        }
        k += 1;
    }
    assert(v@.subrange(i as int, i + pat@.len()) =~= pat@);
    true
}

/// Whether the text `v` begins with `pat`.
pub fn starts_with(v: &Vec<char>, pat: &Vec<char>) -> (b: bool)
    ensures
        b == pat@.is_prefix_of(v@),
{
    let b = matches_at(v, pat, 0);
    proof {
        if b {
            assert(pat@.is_prefix_of(v@));
        }
        if pat@.is_prefix_of(v@) {
            assert(v@.subrange(0, pat@.len() as int) =~= pat@);
        }
    }
    b
}

/// Whether `pat` occurs somewhere in the text `v`.
pub fn contains(v: &Vec<char>, pat: &Vec<char>) -> (b: bool)
    ensures
        b == contains_text(v@, pat@),
{
    if pat.len() > v.len() {
        assert(forall|i: int| !occurs_at(v@, pat@, i));
        return false;
    }
    let last: usize = v.len() - pat.len();
    let mut i: usize = 0;
    while i < last
        invariant
            last == v.len() - pat.len(),
            i <= last,
            forall|j: int| 0 <= j < i ==> !occurs_at(v@, pat@, j),
        decreases last - i,
    {
        if matches_at(v, pat, i) {
            return true;
        }
        i += 1;
    }
    let b = matches_at(v, pat, last);
    assert(!b ==> forall|j: int| !occurs_at(v@, pat@, j));
    b
}

/// `line` without one carriage return at its end, if it has one.
pub open spec fn strip_cr(line: Seq<char>) -> Seq<char> {
    if line.len() > 0 && line.last() == '\r' {
        line.drop_last()
    } else {
        line
    }
}

/// The lines of `s`. A line ends at a line feed, or at a carriage return
/// directly followed by one; the line ending is not part of the line, and
/// the last line need not have one.
pub open spec fn lines(s: Seq<char>) -> Seq<Seq<char>>
    decreases s.len(),
{
    if s.len() == 0 {
        Seq::empty()
    } else {
        let i = first_index(s, '\n') as int;
        if i >= s.len() {
            seq![s]
        } else {
            seq![strip_cr(s.subrange(0, i))] + lines(s.subrange(i + 1, s.len() as int))
        }
    }
}

/// The lines of the text `v`.
pub fn split_lines(v: &Vec<char>) -> (r: Vec<Vec<char>>)
    ensures
        r.deep_view() == lines(v@),
{
    let mut r: Vec<Vec<char>> = Vec::new();
    let mut from: usize = 0;
    let n = v.len();
    assert(v@.subrange(0, n as int) == v@);
    while from < n
        invariant
            n == v.len(),
            from <= n,
            lines(v@) == r.deep_view() + lines(v@.subrange(from as int, n as int)),
        decreases n - from,
    {
        let i = find_char(v, from, n, '\n');
        let ghost rest = v@.subrange(from as int, n as int);
        let ghost before = r.deep_view();
        if i >= n {
            let line = copy_range(v, from, n);
            r.push(line);
            proof {
                assert(lines(rest) == seq![rest]);
                assert(r.deep_view() =~~= before + seq![rest]);
                assert(lines(v@.subrange(n as int, n as int)) == Seq::<Seq<char>>::empty());
            }
            from = n;
        } else {
            let end: usize = if i > from && v[i - 1] == '\r' {
                i - 1
            } else {
                i
            };
            let line = copy_range(v, from, end);
            r.push(line);
            proof {
                let head = rest.subrange(0, i - from);
                assert(head == v@.subrange(from as int, i as int));
                assert(strip_cr(head) == v@.subrange(from as int, end as int)) by {
                    if i > from {
                        assert(head.last() == v@[i - 1]);
                        assert(head.drop_last() == v@.subrange(from as int, i - 1));
                    }
                }
                assert(rest.subrange(i - from + 1, rest.len() as int) == v@.subrange(
                    i + 1,
                    n as int,
                ));
                assert(r.deep_view() =~~= before + seq![strip_cr(head)]);
            }
            from = i + 1;
        }
    }
    assert(lines(v@.subrange(n as int, n as int)) == Seq::<Seq<char>>::empty());
    r
}

/// The number of characters at the start of `s` that are not white space.
pub open spec fn word_len(s: Seq<char>) -> nat
    decreases s.len(),
{
    if s.len() > 0 && !is_whitespace(s[0]) {
        1 + word_len(s.drop_first())
    } else {
        0
    }
}

/// The words of `s`: its maximal runs of characters that are not white
/// space, in order.
pub open spec fn words(s: Seq<char>) -> Seq<Seq<char>>
    decreases s.len(),
{
    if s.len() == 0 {
        Seq::empty()
    } else if is_whitespace(s[0]) {
        words(s.drop_first())
    } else {
        let n = word_len(s) as int;
        proof {
            lemma_word_len_bound(s);
        }
        seq![s.subrange(0, n)] + words(s.subrange(n, s.len() as int))
    }
}

/// A word is no longer than the text that it starts.
pub proof fn lemma_word_len_bound(s: Seq<char>)
    ensures
        word_len(s) <= s.len(),
    decreases s.len(),
{
    if s.len() > 0 && !is_whitespace(s[0]) {
        lemma_word_len_bound(s.drop_first());
    }
}

/// The end of the word that starts at `v[from]`.
fn skip_word(v: &Vec<char>, from: usize, to: usize) -> (i: usize)
    requires
        from <= to <= v.len(),
    ensures
        from <= i <= to,
        i == from + word_len(v@.subrange(from as int, to as int)),
{
    let mut i: usize = from;
    while i < to && !char_is_whitespace(v[i])
        invariant
            from <= i <= to <= v.len(),
            word_len(v@.subrange(from as int, to as int)) == (i - from) + word_len(
                v@.subrange(i as int, to as int),
            ),
        decreases to - i,
    {
        assert(v@.subrange(i as int, to as int).drop_first() == v@.subrange(i + 1, to as int));
        i += 1;
    }
    i
}

/// The words of `v[from..to]`, each as a string.
pub(crate) fn split_words_range(v: &Vec<char>, from: usize, to: usize) -> (r: Vec<String>)
    requires
        from <= to <= v.len(),
    ensures
        r.deep_view() == words(v@.subrange(from as int, to as int)),
{
    let mut r: Vec<String> = Vec::new();
    let mut i: usize = from;
    let ghost all = v@.subrange(from as int, to as int);
    while i < to
        invariant
            from <= i <= to <= v.len(),
            all == v@.subrange(from as int, to as int),
            words(all) == r.deep_view() + words(v@.subrange(i as int, to as int)),
        decreases to - i,
    {
        let ghost rest = v@.subrange(i as int, to as int);
        let ghost before = r.deep_view();
        if char_is_whitespace(v[i]) {
            assert(rest.drop_first() == v@.subrange(i + 1, to as int));
            i += 1;
        } else {
            let end = skip_word(v, i, to);
            let word = string_of_range(v, i, end);
            r.push(word);
            proof {
                assert(rest.subrange(0, end - i) == v@.subrange(i as int, end as int));
                assert(rest.subrange(end - i, rest.len() as int) == v@.subrange(
                    end as int,
                    to as int,
                ));
                assert(r.deep_view() =~= before + seq![v@.subrange(i as int, end as int)]);
            }
            i = end;
        }
    }
    assert(words(v@.subrange(to as int, to as int)) == Seq::<Seq<char>>::empty());
    r
}

/// The words of the text `v`, each as a string.
pub fn split_words(v: &Vec<char>) -> (r: Vec<String>)
    ensures
        r.deep_view() == words(v@),
{
    assert(v@.subrange(0, v@.len() as int) == v@);
    split_words_range(v, 0, v.len())
}

/// The texts of `parts` with `sep` between each two neighbours.
pub open spec fn join(parts: Seq<Seq<char>>, sep: Seq<char>) -> Seq<char>
    decreases parts.len(),
{
    if parts.len() == 0 {
        Seq::empty()
    } else if parts.len() == 1 {
        parts[0]
    } else {
        join(parts.drop_last(), sep) + sep + parts.last()
    }
}

/// Appends the characters of `src` to `dst`.
pub fn append_chars(dst: &mut Vec<char>, src: &Vec<char>)
    ensures
        final(dst)@ == old(dst)@ + src@,
{
    let mut i: usize = 0;
    while i < src.len()
        invariant
            i <= src.len(),
            dst@ == old(dst)@ + src@.subrange(0, i as int),
        decreases src.len() - i,
    {
        dst.push(src[i]);
        i += 1;
        assert(src@.subrange(0, i as int) == src@.subrange(0, i - 1).push(src@[i - 1]));
    }
    assert(src@.subrange(0, src@.len() as int) == src@);
}

/// Whether the text or message `r` is the outcome `expected`.
pub open spec fn is_outcome(r: Result<String, String>, expected: Result<Seq<char>, Seq<char>>)
    -> bool {
    match r {
        Ok(s) => expected == Ok::<Seq<char>, Seq<char>>(s@),
        Err(m) => expected == Err::<Seq<char>, Seq<char>>(m@),
    }
}

/// The text `a` followed by the text `b`.
pub fn concat_text(a: &str, b: &str) -> (r: String)
    ensures
        r@ == a@ + b@,
{
    let mut chars = chars_of(a);
    append_chars(&mut chars, &chars_of(b));
    string_of(&chars)
}

/// Whether the texts `a` and `b` are the same.
pub fn same_text(a: &str, b: &str) -> (r: bool)
    ensures
        r == (a@ == b@),
{
    let x = chars_of(a);
    let y = chars_of(b);
    if x.len() != y.len() {
        return false;
    }
    let mut i: usize = 0;
    while i < x.len()
        invariant
            x.len() == y.len(),
            x@ == a@,
            y@ == b@,
            i <= x.len(),
            forall|k: int| 0 <= k < i ==> x@[k] == y@[k],
        decreases x.len() - i,
    {
        if x[i] != y[i] {
            return false;
        }
        i += 1;
    }
    assert(x@ =~= y@);
    true
}

} // verus!
