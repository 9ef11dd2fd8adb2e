//! Text as a sequence of characters: the searching, splitting, trimming,
//! number parsing and number printing that the other modules are built from.
//!
//! Every function is specified over the character view of its arguments, so a
//! caller's contract can be written with the spec functions of this module.

use vstd::prelude::*;

verus! {

/// `String::push` appends one character.
pub assume_specification[ String::push ](s: &mut String, c: char)
    ensures
        final(s)@ == old(s)@.push(c),
;

/// `String::push_str` appends a string slice.
pub assume_specification[ String::push_str ](s: &mut String, t: &str)
    ensures
        final(s)@ == old(s)@ + t@,
;

// ── Views of collections of strings ──────────────────────────────────────

/// The character views of a sequence of strings.
pub open spec fn texts(v: Seq<String>) -> Seq<Seq<char>> {
    Seq::new(v.len(), |i: int| v[i]@)
}

/// The character view of an optional string.
pub open spec fn opt_text(o: Option<String>) -> Option<Seq<char>> {
    match o {
        Some(s) => Some(s@),
        None => None,
    }
}

/// Pushing a string pushes its view.
pub proof fn lemma_texts_push(v: Seq<String>, s: String)
    ensures
        texts(v.push(s)) == texts(v).push(s@),
{
    assert(texts(v.push(s)) =~= texts(v).push(s@));
}

/// Copy of a string with the same characters.
pub fn copy_str(s: &str) -> (out: String)
    ensures
        out@ == s@,
{
    s.to_owned()
}

/// Copy of an optional string.
pub fn copy_opt(o: &Option<String>) -> (out: Option<String>)
    ensures
        opt_text(out) == opt_text(*o),
{
    match o {
        Some(s) => Some(s.as_str().to_owned()),
        None => None,
    }
}

/// What `{:?}` writes of a text: the text in double quotes, with the characters
/// escaped that `str`'s `Debug` escapes.
pub uninterp spec fn debug_text(s: Seq<char>) -> Seq<char>;

/// `{:?}` of a `str`, by `format!`. The result is named; it depends on the text
/// alone.
#[verifier::external_body]
pub(crate) fn quoted(s: &str) -> (out: String)
    ensures
        out@ == debug_text(s@),
{
    format!("{s:?}")
}

/// The characters of a string.
pub fn chars_of(s: &str) -> (out: Vec<char>)
    ensures
        out@ == s@,
{
    let mut out: Vec<char> = Vec::new();
    for c in it: s.chars()
        invariant
            it.seq() == s@,
            out@ == s@.take(it.index()),
    {
        out.push(c);
    }
    assert(s@.take(s@.len() as int) =~= s@);
    out
}

/// The string made of `cs[from..to]`.
pub fn string_of(cs: &Vec<char>, from: usize, to: usize) -> (out: String)
    requires
        from <= to <= cs@.len(),
    ensures
        out@ == cs@.subrange(from as int, to as int),
{
    let mut out: String = String::new();
    let mut i: usize = from;
    while i < to
        invariant
            from <= i <= to <= cs@.len(),
            out@ == cs@.subrange(from as int, i as int),
        decreases to - i,
    {
        out.push(cs[i]);
        assert(cs@.subrange(from as int, i + 1) =~= cs@.subrange(from as int, i as int).push(
            cs@[i as int],
        ));
        i = i + 1;
    }
    out
}

/// Whether two strings hold the same characters.
pub fn str_eq(a: &str, b: &str) -> (same: bool)
    ensures
        same == (a@ == b@),
{
    let x = chars_of(a);
    let y = chars_of(b);
    if x.len() != y.len() {
        return false;
    }
    let mut i: usize = 0;
    while i < x.len()
        invariant
            i <= x@.len(),
            x@ == a@,
            y@ == b@,
            x@.len() == y@.len(),
            forall|k: int| 0 <= k < i ==> x@[k] == y@[k],
        decreases x@.len() - i,
    {
        if x[i] != y[i] {
            assert(x@[i as int] != y@[i as int]);
            return false;
        }
        i = i + 1;
    }
    assert(x@ =~= y@);
    true
}

// ── Whitespace ────────────────────────────────────────────────────────────

/// The characters with the Unicode `White_Space` property.
pub open spec fn is_space(c: char) -> bool {
    let n = c as u32;
    ||| 0x09 <= n <= 0x0d
    ||| n == 0x20
    ||| n == 0x85
    ||| n == 0xa0
    ||| n == 0x1680
    ||| 0x2000 <= n <= 0x200a
    ||| n == 0x2028
    ||| n == 0x2029
    ||| n == 0x202f
    ||| n == 0x205f
    ||| n == 0x3000
}

/// Whether a character is white space.
pub fn is_white(c: char) -> (yes: bool)
    ensures
        yes == is_space(c),
{
    let n: u32 = c as u32;
    (0x09 <= n && n <= 0x0d) || n == 0x20 || n == 0x85 || n == 0xa0 || n == 0x1680 || (0x2000 <= n
        && n <= 0x200a) || n == 0x2028 || n == 0x2029 || n == 0x202f || n == 0x205f || n == 0x3000
}

/// How many white-space characters `s` begins with.
pub open spec fn leading_spaces(s: Seq<char>) -> nat
    decreases s.len(),
{
    if s.len() > 0 && is_space(s[0]) {
        1 + leading_spaces(s.skip(1))
    } else {
        0
    }
}

/// How many white-space characters `s` ends with.
pub open spec fn trailing_spaces(s: Seq<char>) -> nat
    decreases s.len(),
{
    if s.len() > 0 && is_space(s.last()) {
        1 + trailing_spaces(s.drop_last())
    } else {
        0
    }
}

/// `s` without its leading white space.
pub open spec fn trim_start(s: Seq<char>) -> Seq<char> {
    s.skip(leading_spaces(s) as int)
}

/// `s` without its trailing white space.
pub open spec fn trim_end(s: Seq<char>) -> Seq<char> {
    s.take(s.len() - trailing_spaces(s))
}

/// `s` without leading and trailing white space.
pub open spec fn trim(s: Seq<char>) -> Seq<char> {
    trim_end(trim_start(s))
}

/// The leading run of white space lies inside the text.
pub proof fn lemma_leading_bound(s: Seq<char>)
    ensures
        leading_spaces(s) <= s.len(),
    decreases s.len(),
{
    if s.len() > 0 && is_space(s[0]) {
        lemma_leading_bound(s.skip(1));
    }
}

/// The trailing run of white space lies inside the text.
pub proof fn lemma_trailing_bound(s: Seq<char>)
    ensures
        trailing_spaces(s) <= s.len(),
    decreases s.len(),
{
    if s.len() > 0 && is_space(s.last()) {
        lemma_trailing_bound(s.drop_last());
    }
}

/// Where the first character is no white space, nothing is trimmed before it.
proof fn lemma_trim_start_first(s: Seq<char>)
    ensures
        trim_start(s).len() > 0 ==> !is_space(trim_start(s)[0]),
    decreases s.len(),
{
    lemma_leading_bound(s);
    if s.len() > 0 && is_space(s[0]) {
        lemma_trim_start_first(s.skip(1));
        assert(trim_start(s) =~= trim_start(s.skip(1)));
    } else {
        assert(trim_start(s) =~= s);
    }
}

/// Where the last character is no white space, nothing is trimmed behind it.
proof fn lemma_trim_end_last(s: Seq<char>)
    ensures
        trim_end(s).len() > 0 ==> !is_space(trim_end(s).last()),
    decreases s.len(),
{
    lemma_trailing_bound(s);
    if s.len() > 0 && is_space(s.last()) {
        lemma_trim_end_last(s.drop_last());
        assert(trim_end(s) =~= trim_end(s.drop_last()));
    } else {
        assert(trim_end(s) =~= s);
    }
}

/// A trimmed text has nothing to trim.
pub proof fn lemma_trim_idempotent(s: Seq<char>)
    ensures
        trim(trim(s)) == trim(s),
{
    let a = trim_start(s);
    let t = trim(s);
    lemma_leading_bound(s);
    lemma_trailing_bound(a);
    lemma_trim_start_first(s);
    lemma_trim_end_last(a);
    if t.len() > 0 {
        assert(t[0] == a[0]);
    }
    assert(leading_spaces(t) == 0);
    assert(trim_start(t) =~= t);
    assert(trailing_spaces(t) == 0);
    assert(trim_end(t) =~= t);
}

/// `leading_spaces` of a suffix, one step at a time.
proof fn lemma_leading_step(s: Seq<char>, i: int)
    requires
        0 <= i < s.len(),
    ensures
        leading_spaces(s.skip(i)) == (if is_space(s[i]) {
            1 + leading_spaces(s.skip(i + 1))
        } else {
            0
        }),
{
    assert(s.skip(i).skip(1) =~= s.skip(i + 1));
    assert(s.skip(i)[0] == s[i]);
}

/// `trailing_spaces` of a prefix, one step at a time.
proof fn lemma_trailing_step(s: Seq<char>, i: int)
    requires
        0 < i <= s.len(),
    ensures
        trailing_spaces(s.take(i)) == (if is_space(s[i - 1]) {
            1 + trailing_spaces(s.take(i - 1))
        } else {
            0
        }),
{
    assert(s.take(i).drop_last() =~= s.take(i - 1));
    assert(s.take(i).last() == s[i - 1]);
}

/// The bounds of `cs[from..to]` without surrounding white space.
pub fn trim_bounds(cs: &Vec<char>, from: usize, to: usize) -> (r: (usize, usize))
    requires
        from <= to <= cs@.len(),
    ensures
        from <= r.0 <= r.1 <= to,
        r.0 == from + leading_spaces(cs@.subrange(from as int, to as int)),
        cs@.subrange(r.0 as int, r.1 as int) == trim(cs@.subrange(from as int, to as int)),
{
    let ghost s = cs@.subrange(from as int, to as int);
    let mut a: usize = from;
    assert(s.skip(0) =~= s);
    while a < to && is_white(cs[a])
        invariant
            from <= a <= to <= cs@.len(),
            s == cs@.subrange(from as int, to as int),
            leading_spaces(s) == (a - from) + leading_spaces(s.skip(a - from)),
        decreases to - a,
    {
        proof {
            lemma_leading_step(s, a - from);
        }
        a = a + 1;
    }
    proof {
        if a < to {
            lemma_leading_step(s, a - from);
        }
        assert(leading_spaces(s) == a - from);
    }
    let ghost t = cs@.subrange(a as int, to as int);
    assert(t =~= s.skip(a - from));
    let mut b: usize = to;
    proof {
        assert(t.take(to - a) =~= t);
    }
    while b > a && is_white(cs[b - 1])
        invariant
            a <= b <= to <= cs@.len(),
            t == cs@.subrange(a as int, to as int),
            trailing_spaces(t) == (to - b) + trailing_spaces(t.take(b - a)),
        decreases b,
    {
        proof {
            lemma_trailing_step(t, b - a);
        }
        b = b - 1;
    }
    proof {
        if b > a {
            lemma_trailing_step(t, b - a);
        }
        assert(trailing_spaces(t) == to - b);
        assert(cs@.subrange(a as int, b as int) =~= trim(s));
    }
    (a, b)
}

/// `s` without leading and trailing white space.
pub fn trimmed(s: &str) -> (out: String)
    ensures
        out@ == trim(s@),
{
    let cs = chars_of(s);
    let r = trim_bounds(&cs, 0, cs.len());
    assert(cs@.subrange(0, cs@.len() as int) =~= s@);
    string_of(&cs, r.0, r.1)
}

/// `s` without leading white space.
pub fn trimmed_start(s: &str) -> (out: String)
    ensures
        out@ == trim_start(s@),
{
    let cs = chars_of(s);
    let n: usize = cs.len();
    let r = trim_bounds(&cs, 0, n);
    assert(cs@.subrange(0, n as int) =~= s@);
    let out = string_of(&cs, r.0, n);
    assert(out@ =~= trim_start(s@));
    out
}

/// Whether nothing but white space is in `s`.
pub fn is_blank(s: &str) -> (yes: bool)
    ensures
        yes == (trim(s@).len() == 0),
{
    let cs = chars_of(s);
    let r = trim_bounds(&cs, 0, cs.len());
    assert(cs@.subrange(0, cs@.len() as int) =~= s@);
    r.0 == r.1
}

// ── Searching ─────────────────────────────────────────────────────────────

/// Whether `pat` stands in `s` at position `i`.
pub open spec fn stands_at(s: Seq<char>, pat: Seq<char>, i: int) -> bool {
    0 <= i && i + pat.len() <= s.len() && s.subrange(i, i + pat.len()) == pat
}

/// The first position at or after `from` where `pat` stands in `s`.
pub open spec fn find_from(s: Seq<char>, pat: Seq<char>, from: int) -> Option<int>
    decreases s.len() - from,
{
    if from + pat.len() > s.len() {
        None
    } else if stands_at(s, pat, from) {
        Some(from)
    } else if from < s.len() {
        find_from(s, pat, from + 1)
    } else {
        None
    }
}

/// Whether `pat` stands somewhere in `s`.
pub open spec fn contains(s: Seq<char>, pat: Seq<char>) -> bool {
    find_from(s, pat, 0) is Some
}

/// What `find_from` returns is the first place where the pattern stands.
pub proof fn lemma_find_from(s: Seq<char>, pat: Seq<char>, from: int)
    requires
        0 <= from,
    ensures
        match find_from(s, pat, from) {
            Some(i) => from <= i && stands_at(s, pat, i) && (forall|k: int|
                from <= k < i ==> !stands_at(s, pat, k)),
            None => forall|k: int| from <= k ==> !stands_at(s, pat, k),
        },
    decreases s.len() - from,
{
    if from + pat.len() > s.len() {
    } else if stands_at(s, pat, from) {
    } else if from < s.len() {
        lemma_find_from(s, pat, from + 1);
    } else {
        assert(s.subrange(from, from) =~= pat);
    }
}

/// Whether `pat` stands in `cs` at `i`.
pub fn at(cs: &Vec<char>, pat: &Vec<char>, i: usize) -> (yes: bool)
    requires
        i <= cs@.len(),
    ensures
        yes == stands_at(cs@, pat@, i as int),
{
    let n: usize = cs.len();
    if pat.len() > n - i {
        return false;
    }
    let mut k: usize = 0;
    while k < pat.len()
        invariant
            k <= pat@.len(),
            n == cs@.len(),
            i + pat@.len() <= n,
            forall|j: int| 0 <= j < k ==> cs@[i + j] == pat@[j],
        decreases pat@.len() - k,
    {
        if cs[i + k] != pat[k] {
            proof {
                assert(cs@.subrange(i as int, i + pat@.len())[k as int] == cs@[i + k]);
            }
            return false;
        }
        k = k + 1;
    }
    assert(cs@.subrange(i as int, i + pat@.len()) =~= pat@);
    true
}

/// The first position at or after `from` where `pat` stands in `cs`.
pub fn position(cs: &Vec<char>, pat: &Vec<char>, from: usize) -> (r: Option<usize>)
    requires
        from <= cs@.len(),
    ensures
        match r {
            Some(i) => find_from(cs@, pat@, from as int) == Some(i as int) && from <= i
                && i + pat@.len() <= cs@.len(),
            None => find_from(cs@, pat@, from as int) is None,
        },
{
    let mut i: usize = from;
    loop
        invariant
            from <= i <= cs@.len(),
            find_from(cs@, pat@, from as int) == find_from(cs@, pat@, i as int),
        decreases cs@.len() - i,
    {
        if pat.len() > cs.len() - i {
            return None;
        }
        if at(cs, pat, i) {
            return Some(i);
        }
        if i == cs.len() {
            return None;
        }
        i = i + 1;
    }
}

/// Whether `pat` stands somewhere in `s`.
pub fn has(s: &str, pat: &str) -> (yes: bool)
    ensures
        yes == contains(s@, pat@),
{
    let cs = chars_of(s);
    let ps = chars_of(pat);
    match position(&cs, &ps, 0) {
        Some(_) => true,
        None => false,
    }
}

/// Whether `s` begins with `pat`.
pub open spec fn starts_with(s: Seq<char>, pat: Seq<char>) -> bool {
    pat.len() <= s.len() && s.take(pat.len() as int) == pat
}

/// Whether `s` ends with `pat`.
pub open spec fn ends_with(s: Seq<char>, pat: Seq<char>) -> bool {
    pat.len() <= s.len() && s.skip(s.len() - pat.len()) == pat
}

/// Whether `s` begins with `pat`.
pub fn begins(s: &str, pat: &str) -> (yes: bool)
    ensures
        yes == starts_with(s@, pat@),
{
    let cs = chars_of(s);
    let ps = chars_of(pat);
    let yes = at(&cs, &ps, 0);
    proof {
        if ps@.len() <= cs@.len() {
            assert(cs@.subrange(0, ps@.len() as int) =~= s@.take(pat@.len() as int));
        }
    }
    yes
}

/// Whether `s` ends with `pat`.
pub fn ends(s: &str, pat: &str) -> (yes: bool)
    ensures
        yes == ends_with(s@, pat@),
{
    let cs = chars_of(s);
    let ps = chars_of(pat);
    if ps.len() > cs.len() {
        return false;
    }
    let i: usize = cs.len() - ps.len();
    assert(cs@.subrange(i as int, i + ps@.len()) =~= s@.skip(s@.len() - pat@.len()));
    at(&cs, &ps, i)
}

/// What follows the prefix `pat` in `s`.
pub open spec fn strip_prefix(s: Seq<char>, pat: Seq<char>) -> Option<Seq<char>> {
    if starts_with(s, pat) {
        Some(s.skip(pat.len() as int))
    } else {
        None
    }
}

/// What precedes the suffix `pat` in `s`.
pub open spec fn strip_suffix(s: Seq<char>, pat: Seq<char>) -> Option<Seq<char>> {
    if ends_with(s, pat) {
        Some(s.take(s.len() - pat.len()))
    } else {
        None
    }
}

/// What follows the prefix `pat` in `s`.
pub fn after_prefix(s: &str, pat: &str) -> (out: Option<String>)
    ensures
        opt_text(out) == strip_prefix(s@, pat@),
{
    if begins(s, pat) {
        let cs = chars_of(s);
        let ps = chars_of(pat);
        let n: usize = ps.len();
        let m: usize = cs.len();
        let out = string_of(&cs, n, m);
        assert(out@ =~= s@.skip(pat@.len() as int));
        Some(out)
    } else {
        None
    }
}

/// What precedes the suffix `pat` in `s`.
pub fn before_suffix(s: &str, pat: &str) -> (out: Option<String>)
    ensures
        opt_text(out) == strip_suffix(s@, pat@),
{
    if ends(s, pat) {
        let cs = chars_of(s);
        let ps = chars_of(pat);
        let m: usize = cs.len() - ps.len();
        let out = string_of(&cs, 0, m);
        assert(out@ =~= s@.take(s@.len() - pat@.len()));
        Some(out)
    } else {
        None
    }
}

// ── Splitting ─────────────────────────────────────────────────────────────

/// The position of the first `c` in `s`, or the length of `s`.
pub open spec fn index_of(s: Seq<char>, c: char) -> nat
    decreases s.len(),
{
    if s.len() == 0 || s[0] == c {
        0
    } else {
        1 + index_of(s.skip(1), c)
    }
}

/// `index_of` lies inside the text and finds the character, if it is there.
pub proof fn lemma_index_of(s: Seq<char>, c: char)
    ensures
        index_of(s, c) <= s.len(),
        index_of(s, c) < s.len() ==> s[index_of(s, c) as int] == c,
        forall|k: int| 0 <= k < index_of(s, c) ==> s[k] != c,
    decreases s.len(),
{
    if s.len() == 0 || s[0] == c {
    } else {
        lemma_index_of(s.skip(1), c);
        assert forall|k: int| 0 <= k < index_of(s, c) implies s[k] != c by {
            if k > 0 {
                assert(s.skip(1)[k - 1] == s[k]);
            }
        }
    }
}

/// The position of the first `c` in `cs[from..to]`, or `to`.
pub fn index_from(cs: &Vec<char>, c: char, from: usize, to: usize) -> (i: usize)
    requires
        from <= to <= cs@.len(),
    ensures
        from <= i <= to,
        i - from == index_of(cs@.subrange(from as int, to as int), c),
{
    let ghost s = cs@.subrange(from as int, to as int);
    let mut i: usize = from;
    assert(s.skip(0) =~= s);
    while i < to
        invariant
            from <= i <= to <= cs@.len(),
            s == cs@.subrange(from as int, to as int),
            index_of(s, c) == (i - from) + index_of(s.skip(i - from), c),
        decreases to - i,
    {
        assert(s.skip(i - from)[0] == cs@[i as int]);
        if cs[i] == c {
            return i;
        }
        assert(s.skip(i - from).skip(1) =~= s.skip(i + 1 - from));
        i = i + 1;
    }
    i
}

/// `s` split in two round its first `c`.
pub open spec fn split_once(s: Seq<char>, c: char) -> Option<(Seq<char>, Seq<char>)> {
    let i = index_of(s, c) as int;
    if i < s.len() {
        Some((s.take(i), s.skip(i + 1)))
    } else {
        None
    }
}

/// `s` split in two round its first `c`.
pub fn cut_once(s: &str, c: char) -> (r: Option<(String, String)>)
    ensures
        match r {
            Some(p) => split_once(s@, c) == Some((p.0@, p.1@)),
            None => split_once(s@, c) is None,
        },
{
    let cs = chars_of(s);
    let n: usize = cs.len();
    let i: usize = index_from(&cs, c, 0, n);
    assert(cs@.subrange(0, n as int) =~= s@);
    if i < n {
        let a = string_of(&cs, 0, i);
        let b = string_of(&cs, i + 1, n);
        assert(a@ =~= s@.take(i as int));
        assert(b@ =~= s@.skip(i + 1));
        Some((a, b))
    } else {
        None
    }
}

/// A line without the carriage return it ends with.
pub open spec fn strip_cr(s: Seq<char>) -> Seq<char> {
    if s.len() > 0 && s.last() == '\r' {
        s.drop_last()
    } else {
        s
    }
}

/// The lines of `s`: each ends in a line feed, with an optional carriage
/// return before it; the last may lack the line feed.
pub open spec fn lines(s: Seq<char>) -> Seq<Seq<char>>
    decreases s.len(),
    via lines_decreases
{
    if s.len() == 0 {
        Seq::empty()
    } else {
        let i = index_of(s, '\n') as int;
        if i < s.len() {
            seq![strip_cr(s.take(i))] + lines(s.skip(i + 1))
        } else {
            seq![s]
        }
    }
}

#[via_fn]
proof fn lines_decreases(s: Seq<char>) {
    lemma_index_of(s, '\n');
}

/// The lines of `s`.
pub fn lines_of(s: &str) -> (out: Vec<String>)
    ensures
        texts(out@) == lines(s@),
{
    let cs = chars_of(s);
    let n: usize = cs.len();
    let mut out: Vec<String> = Vec::new();
    let mut i: usize = 0;
    assert(texts(out@) + lines(cs@.skip(0)) =~= lines(s@)) by {
        assert(cs@.skip(0) =~= s@);
    }
    while i < n
        invariant
            i <= n == cs@.len(),
            texts(out@) + lines(cs@.skip(i as int)) == lines(s@),
        decreases n - i,
    {
        let ghost before = out@;
        let ghost rest = cs@.skip(i as int);
        let j: usize = index_from(&cs, '\n', i, n);
        assert(cs@.subrange(i as int, n as int) =~= rest);
        if j < n {
            let mut end: usize = j;
            if j > i && cs[j - 1] == '\r' {
                end = j - 1;
            }
            let line = string_of(&cs, i, end);
            proof {
                assert(rest.take(j - i) =~= cs@.subrange(i as int, j as int));
                assert(line@ =~= strip_cr(rest.take(j - i)));
                lemma_texts_push(before, line);
                assert(rest.skip(j - i + 1) =~= cs@.skip(j + 1));
                assert(texts(before).push(line@) + lines(cs@.skip(j + 1)) =~= texts(before) + (
                seq![line@] + lines(cs@.skip(j + 1))));
            }
            out.push(line);
            i = j + 1;
        } else {
            let line = string_of(&cs, i, n);
            proof {
                assert(line@ =~= rest);
                lemma_texts_push(before, line);
                assert(cs@.skip(n as int) =~= Seq::<char>::empty());
                assert(lines(cs@.skip(n as int)) =~= Seq::<Seq<char>>::empty());
                assert(texts(before).push(line@) + lines(cs@.skip(n as int)) =~= texts(before)
                    + seq![rest]);
            }
            out.push(line);
            i = n;
        }
    }
    proof {
        assert(cs@.skip(i as int) =~= Seq::<char>::empty());
        assert(texts(out@) + lines(cs@.skip(i as int)) =~= texts(out@));
    }
    out
}

/// The number of characters before the first white space in `s`.
pub open spec fn word_len(s: Seq<char>) -> nat
    decreases s.len(),
{
    if s.len() == 0 || is_space(s[0]) {
        0
    } else {
        1 + word_len(s.skip(1))
    }
}

/// A word lies inside the text.
pub proof fn lemma_word_len(s: Seq<char>)
    ensures
        word_len(s) <= s.len(),
    decreases s.len(),
{
    if s.len() == 0 || is_space(s[0]) {
    } else {
        lemma_word_len(s.skip(1));
    }
}

/// The maximal runs of characters of `s` that are not white space.
pub open spec fn words(s: Seq<char>) -> Seq<Seq<char>>
    decreases s.len(),
    via words_decreases
{
    let t = trim_start(s);
    let n = word_len(t) as int;
    if t.len() == 0 || n == 0 {
        Seq::empty()
    } else {
        seq![t.take(n)] + words(t.skip(n))
    }
}

#[via_fn]
proof fn words_decreases(s: Seq<char>) {
    lemma_leading_bound(s);
    lemma_word_len(trim_start(s));
}

/// The maximal runs of characters of `s` that are not white space.
pub fn words_of(s: &str) -> (out: Vec<String>)
    ensures
        texts(out@) == words(s@),
{
    let cs = chars_of(s);
    let n: usize = cs.len();
    let mut out: Vec<String> = Vec::new();
    let mut i: usize = 0;
    assert(texts(out@) + words(cs@.skip(0)) =~= words(s@)) by {
        assert(cs@.skip(0) =~= s@);
    }
    loop
        invariant
            i <= n == cs@.len(),
            texts(out@) + words(cs@.skip(i as int)) == words(s@),
        decreases n - i,
    {
        let ghost before = out@;
        let ghost rest = cs@.skip(i as int);
        let mut a: usize = i;
        assert(rest.skip(0) =~= rest);
        while a < n && is_white(cs[a])
            invariant
                i <= a <= n == cs@.len(),
                rest == cs@.skip(i as int),
                leading_spaces(rest) == (a - i) + leading_spaces(rest.skip(a - i)),
            decreases n - a,
        {
            proof {
                lemma_leading_step(rest, a - i);
            }
            a = a + 1;
        }
        let ghost t = cs@.skip(a as int);
        proof {
            if a < n {
                lemma_leading_step(rest, a - i);
            }
            assert(trim_start(rest) =~= t);
        }
        if a == n {
            proof {
                assert(words(rest) =~= Seq::<Seq<char>>::empty());
                assert(texts(out@) + words(rest) =~= texts(out@));
            }
            return out;
        }
        let mut b: usize = a;
        assert(t.skip(0) =~= t);
        while b < n && !is_white(cs[b])
            invariant
                a <= b <= n == cs@.len(),
                t == cs@.skip(a as int),
                word_len(t) == (b - a) + word_len(t.skip(b - a)),
            decreases n - b,
        {
            proof {
                assert(t.skip(b - a)[0] == cs@[b as int]);
                assert(t.skip(b - a).skip(1) =~= t.skip(b + 1 - a));
            }
            b = b + 1;
        }
        proof {
            if b < n {
                assert(t.skip(b - a)[0] == cs@[b as int]);
            }
            assert(word_len(t) == b - a);
            assert(t[0] == cs@[a as int]);
            assert(b > a);
        }
        let word = string_of(&cs, a, b);
        proof {
            assert(word@ =~= t.take(b - a));
            assert(t.skip(b - a) =~= cs@.skip(b as int));
            lemma_texts_push(before, word);
            assert(texts(before).push(word@) + words(cs@.skip(b as int)) =~= texts(before) + (
            seq![word@] + words(cs@.skip(b as int))));
        }
        out.push(word);
        i = b;
    }
}

// ── Numbers ───────────────────────────────────────────────────────────────

/// Whether a character is an ASCII decimal digit.
pub open spec fn is_digit(c: char) -> bool {
    '0' <= c <= '9'
}

/// The value of a text of decimal digits.
pub open spec fn digits_value(s: Seq<char>) -> nat
    decreases s.len(),
{
    if s.len() == 0 {
        0
    } else {
        digits_value(s.drop_last()) * 10 + (s.last() as nat - '0' as nat) as nat
    }
}

/// Whether a text is one or more decimal digits.
pub open spec fn all_digits(s: Seq<char>) -> bool {
    s.len() > 0 && forall|i: int| 0 <= i < s.len() ==> is_digit(s[i])
}

/// A number in decimal, with an optional plus sign before it.
pub open spec fn parse_nat(s: Seq<char>) -> Option<nat> {
    let d = if s.len() > 0 && s[0] == '+' {
        s.skip(1)
    } else {
        s
    };
    if all_digits(d) {
        Some(digits_value(d))
    } else {
        None
    }
}

/// A number in decimal that is at most `max`.
pub open spec fn parse_max(s: Seq<char>, max: nat) -> Option<nat> {
    match parse_nat(s) {
        Some(v) => if v <= max {
            Some(v)
        } else {
            None
        },
        None => None,
    }
}

/// The number that `s` writes in decimal, if it is at most `max`.
pub fn parse_up_to(s: &str, max: u64) -> (r: Option<u64>)
    ensures
        match r {
            Some(v) => parse_max(s@, max as nat) == Some(v as nat),
            None => parse_max(s@, max as nat) is None,
        },
{
    let cs = chars_of(s);
    let n: usize = cs.len();
    let mut start: usize = 0;
    if n > 0 && cs[0] == '+' {
        start = 1;
    }
    let ghost d = if s@.len() > 0 && s@[0] == '+' {
        s@.skip(1)
    } else {
        s@
    };
    assert(d =~= cs@.skip(start as int));
    if start == n {
        return None;
    }
    let mut i: usize = start;
    let mut v: u64 = 0;
    let mut over: bool = false;
    assert(d.take(0) =~= Seq::<char>::empty());
    assert(parse_nat(s@) == (if all_digits(d) {
        Some(digits_value(d))
    } else {
        None
    }));
    while i < n
        invariant
            start <= i <= n == cs@.len(),
            d == cs@.skip(start as int),
            parse_nat(s@) == (if all_digits(d) {
                Some(digits_value(d))
            } else {
                None
            }),
            forall|k: int| 0 <= k < i - start ==> is_digit(d[k]),
            over ==> digits_value(d.take(i - start)) > max,
            !over ==> v == digits_value(d.take(i - start)) && v <= max,
        decreases n - i,
    {
        let c: char = cs[i];
        assert(d[i - start] == c);
        if !('0' <= c && c <= '9') {
            return None;
        }
        let digit: u64 = (c as u32 - '0' as u32) as u64;
        proof {
            assert(d.take(i + 1 - start).drop_last() =~= d.take(i - start));
            assert(d.take(i + 1 - start).last() == c);
        }
        if !over {
            if v > max / 10 || digit > max - v * 10 {
                over = true;
            } else {
                v = v * 10 + digit;
            }
        }
        i = i + 1;
    }
    assert(d.take(n - start) =~= d);
    assert(all_digits(d));
    if over {
        None
    } else {
        Some(v)
    }
}

/// An integer in decimal, with an optional sign before it, within the range
/// of 64-bit integers.
pub open spec fn parse_int(s: Seq<char>) -> Option<int> {
    if s.len() > 0 && s[0] == '-' {
        if all_digits(s.skip(1)) && digits_value(s.skip(1)) <= 0x8000_0000_0000_0000 {
            Some(-(digits_value(s.skip(1)) as int))
        } else {
            None
        }
    } else {
        match parse_max(s, i64::MAX as nat) {
            Some(v) => Some(v as int),
            None => None,
        }
    }
}

/// The integer that `s` writes in decimal.
pub fn parse_i64(s: &str) -> (r: Option<i64>)
    ensures
        match r {
            Some(v) => parse_int(s@) == Some(v as int),
            None => parse_int(s@) is None,
        },
{
    match after_prefix(s, "-") {
        Some(rest) => {
            proof {
                reveal_strlit("-");
                assert(s@.take(1)[0] == s@[0]);
                assert(s@[0] == '-');
            }
            if begins(rest.as_str(), "+") {
                proof {
                    reveal_strlit("+");
                    assert(rest@.take(1)[0] == rest@[0]);
                    assert(!is_digit(rest@[0]));
                }
                return None;
            }
            proof {
                reveal_strlit("+");
                if rest@.len() > 0 && rest@[0] == '+' {
                    assert(rest@.take(1) =~= "+"@);
                }
            }
            match parse_up_to(rest.as_str(), 0x8000_0000_0000_0000) {
                Some(v) => {
                    if v == 0x8000_0000_0000_0000 {
                        Some(i64::MIN)
                    } else {
                        Some(-(v as i64))
                    }
                },
                None => None,
            }
        },
        None => {
            proof {
                reveal_strlit("-");
                if s@.len() > 0 && s@[0] == '-' {
                    assert(s@.take(1) =~= "-"@);
                }
            }
            match parse_up_to(s, i64::MAX as u64) {
                Some(v) => Some(v as i64),
                None => None,
            }
        },
    }
}

/// The value of a hexadecimal digit of either case.
pub open spec fn hex_digit(c: char) -> Option<nat> {
    if '0' <= c <= '9' {
        Some((c as nat - '0' as nat) as nat)
    } else if 'a' <= c <= 'f' {
        Some((c as nat - 'a' as nat + 10) as nat)
    } else if 'A' <= c <= 'F' {
        Some((c as nat - 'A' as nat + 10) as nat)
    } else {
        None
    }
}

/// Whether a text is one or more hexadecimal digits.
pub open spec fn all_hex(s: Seq<char>) -> bool {
    s.len() > 0 && forall|i: int| 0 <= i < s.len() ==> hex_digit(#[trigger] s[i]) is Some
}

/// The value of a text of hexadecimal digits.
pub open spec fn hex_value(s: Seq<char>) -> nat
    decreases s.len(),
{
    if s.len() == 0 {
        0
    } else {
        hex_value(s.drop_last()) * 16 + (match hex_digit(s.last()) {
            Some(d) => d,
            None => 0,
        })
    }
}

/// A 32-bit number in hexadecimal, with an optional plus sign before it.
pub open spec fn parse_hex(s: Seq<char>) -> Option<nat> {
    let d = if s.len() > 0 && s[0] == '+' {
        s.skip(1)
    } else {
        s
    };
    if all_hex(d) && hex_value(d) <= u32::MAX {
        Some(hex_value(d))
    } else {
        None
    }
}

fn hex_digit_of(c: char) -> (r: Option<u64>)
    ensures
        match r {
            Some(d) => hex_digit(c) == Some(d as nat) && d < 16,
            None => hex_digit(c) is None,
        },
{
    if '0' <= c && c <= '9' {
        Some((c as u32 - '0' as u32) as u64)
    } else if 'a' <= c && c <= 'f' {
        Some((c as u32 - 'a' as u32 + 10) as u64)
    } else if 'A' <= c && c <= 'F' {
        Some((c as u32 - 'A' as u32 + 10) as u64)
    } else {
        None
    }
}

/// The 32-bit number that `s` writes in hexadecimal.
pub fn parse_hex_u32(s: &str) -> (r: Option<u32>)
    ensures
        match r {
            Some(v) => parse_hex(s@) == Some(v as nat),
            None => parse_hex(s@) is None,
        },
{
    let cs = chars_of(s);
    let n: usize = cs.len();
    let mut start: usize = 0;
    if n > 0 && cs[0] == '+' {
        start = 1;
    }
    let ghost d = if s@.len() > 0 && s@[0] == '+' {
        s@.skip(1)
    } else {
        s@
    };
    assert(d =~= cs@.skip(start as int));
    if start == n {
        return None;
    }
    let mut i: usize = start;
    let mut v: u64 = 0;
    let mut over: bool = false;
    assert(d.take(0) =~= Seq::<char>::empty());
    assert(parse_hex(s@) == (if all_hex(d) && hex_value(d) <= u32::MAX {
        Some(hex_value(d))
    } else {
        None
    }));
    while i < n
        invariant
            start <= i <= n == cs@.len(),
            d == cs@.skip(start as int),
            parse_hex(s@) == (if all_hex(d) && hex_value(d) <= u32::MAX {
                Some(hex_value(d))
            } else {
                None
            }),
            forall|k: int| 0 <= k < i - start ==> hex_digit(#[trigger] d[k]) is Some,
            over ==> hex_value(d.take(i - start)) > u32::MAX,
            !over ==> v == hex_value(d.take(i - start)) && v <= u32::MAX,
        decreases n - i,
    {
        let c: char = cs[i];
        assert(d[i - start] == c);
        match hex_digit_of(c) {
            None => {
                return None;
            },
            Some(digit) => {
                proof {
                    assert(d.take(i + 1 - start).drop_last() =~= d.take(i - start));
                    assert(d.take(i + 1 - start).last() == c);
                }
                if !over {
                    v = v * 16 + digit;
                    if v > u32::MAX as u64 {
                        over = true;
                    }
                }
            },
        }
        i = i + 1;
    }
    assert(d.take(n - start) =~= d);
    assert(all_hex(d));
    if over {
        None
    } else {
        Some(v as u32)
    }
}

/// The character of a digit.
pub open spec fn digit_char(d: nat) -> char {
    (('0' as nat) + d) as char
}

/// A number in decimal, without leading zeros.
pub open spec fn decimal(n: nat) -> Seq<char>
    decreases n,
{
    if n < 10 {
        seq![digit_char(n)]
    } else {
        decimal(n / 10).push(digit_char(n % 10))
    }
}

/// An integer in decimal, with a minus sign where it is negative.
pub open spec fn signed_decimal(n: int) -> Seq<char> {
    if n < 0 {
        seq!['-'] + decimal((-n) as nat)
    } else {
        decimal(n as nat)
    }
}

fn char_of_digit(d: u64) -> (c: char)
    requires
        d < 10,
    ensures
        c == digit_char(d as nat),
{
    if d == 0 {
        '0'
    } else if d == 1 {
        '1'
    } else if d == 2 {
        '2'
    } else if d == 3 {
        '3'
    } else if d == 4 {
        '4'
    } else if d == 5 {
        '5'
    } else if d == 6 {
        '6'
    } else if d == 7 {
        '7'
    } else if d == 8 {
        '8'
    } else {
        '9'
    }
}

/// `n` in decimal.
pub fn decimal_of(n: u64) -> (out: String)
    ensures
        out@ == decimal(n as nat),
    decreases n,
{
    if n < 10 {
        let mut s: String = String::new();
        s.push(char_of_digit(n));
        assert(s@ =~= decimal(n as nat));
        s
    } else {
        let mut s = decimal_of(n / 10);
        s.push(char_of_digit(n % 10));
        s
    }
}

/// `n` in decimal, with its sign.
pub fn signed_decimal_of(n: i64) -> (out: String)
    ensures
        out@ == signed_decimal(n as int),
{
    if n < 0 {
        let mut s: String = String::new();
        s.push('-');
        assert(s@ =~= seq!['-']);
        let m: u64 = ((-(n + 1)) as u64) + 1;
        let d = decimal_of(m);
        s.push_str(d.as_str());
        s
    } else {
        decimal_of(n as u64)
    }
}

/// The decimal digits of a number are digits, and their value is the number.
pub proof fn lemma_decimal_value(n: nat)
    ensures
        all_digits(decimal(n)),
        digits_value(decimal(n)) == n,
    decreases n,
{
    if n < 10 {
        let s = decimal(n);
        assert(s.drop_last() =~= Seq::<char>::empty());
        assert(digits_value(s.drop_last()) == 0);
    } else {
        lemma_decimal_value(n / 10);
        let s = decimal(n);
        assert(s.drop_last() =~= decimal(n / 10));
        assert(s.last() == digit_char(n % 10));
    }
}

/// Printing a number and parsing it back gives the number.
pub proof fn law_decimal_round_trip(n: nat)
    ensures
        parse_nat(decimal(n)) == Some(n),
{
    lemma_decimal_value(n);
    assert(is_digit(decimal(n)[0]));
}

/// `n` copies of one character.
pub open spec fn repeat(c: char, n: int) -> Seq<char> {
    Seq::new(if n < 0 {
        0
    } else {
        n as nat
    }, |i: int| c)
}

/// `s` filled up on its right to `width` characters with spaces.
pub open spec fn pad_right(s: Seq<char>, width: nat) -> Seq<char> {
    s + repeat(' ', width - s.len())
}

/// `s` filled up on its left to `width` characters with `fill`.
pub open spec fn pad_left(s: Seq<char>, fill: char, width: nat) -> Seq<char> {
    repeat(fill, width - s.len()) + s
}

proof fn lemma_zeros_value(k: int, s: Seq<char>)
    ensures
        digits_value(repeat('0', k) + s) == digits_value(s),
    decreases s.len(),
            if k < 0 {
                0
            } else {
                k
            },
{
    let z = repeat('0', k);
    if s.len() > 0 {
        lemma_zeros_value(k, s.drop_last());
        assert((z + s).drop_last() =~= z + s.drop_last());
        assert((z + s).last() == s.last());
    } else {
        assert(z + s =~= z);
        if k > 0 {
            lemma_zeros_value(k - 1, s);
            assert(z.drop_last() =~= repeat('0', k - 1));
            assert(repeat('0', k - 1) + s =~= repeat('0', k - 1));
            assert(z.last() == '0');
        }
    }
}

/// Leading zeros do not change the value of a number.
pub proof fn lemma_padded_value(n: nat, width: nat)
    ensures
        all_digits(pad_left(decimal(n), '0', width)),
        digits_value(pad_left(decimal(n), '0', width)) == n,
{
    lemma_zeros_value(width - decimal(n).len(), decimal(n));
    lemma_decimal_value(n);
}

/// Digits behind a mark that is no digit can be told from what stands before.
pub proof fn lemma_digits_behind_mark(
    a: Seq<char>,
    b: Seq<char>,
    mark: char,
    x: Seq<char>,
    y: Seq<char>,
)
    requires
        a.push(mark) + x == b.push(mark) + y,
        !is_digit(mark),
        all_digits(x),
        all_digits(y),
    ensures
        a == b,
        x == y,
{
    let left = a.push(mark) + x;
    let right = b.push(mark) + y;
    assert(left.len() == a.len() + 1 + x.len());
    assert(right.len() == b.len() + 1 + y.len());
    if a.len() < b.len() {
        assert(right[b.len() as int] == mark);
        assert(left[b.len() as int] == x[b.len() - a.len() - 1]);
    } else if b.len() < a.len() {
        assert(left[a.len() as int] == mark);
        assert(right[a.len() as int] == y[a.len() - b.len() - 1]);
    }
    assert(a =~= b) by {
        assert forall|i: int| 0 <= i < a.len() implies a[i] == b[i] by {
            assert(left[i] == a[i] && right[i] == b[i]);
        }
    }
    assert(x =~= y) by {
        assert forall|i: int| 0 <= i < x.len() implies x[i] == y[i] by {
            assert(left[a.len() + 1 + i] == x[i] && right[a.len() + 1 + i] == y[i]);
        }
    }
}

fn repeat_of(c: char, n: usize) -> (out: String)
    ensures
        out@ == repeat(c, n as int),
{
    let mut out: String = String::new();
    let mut i: usize = 0;
    assert(out@ =~= repeat(c, 0));
    while i < n
        invariant
            i <= n,
            out@ == repeat(c, i as int),
        decreases n - i,
    {
        out.push(c);
        assert(repeat(c, i + 1) =~= repeat(c, i as int).push(c));
        i = i + 1;
    }
    out
}

/// `s` filled up on its right to `width` characters with spaces.
pub fn padded_right(s: &str, width: usize) -> (out: String)
    ensures
        out@ == pad_right(s@, width as nat),
{
    let n: usize = s.unicode_len();
    let mut out: String = s.to_owned();
    if n < width {
        let fill = repeat_of(' ', width - n);
        out.push_str(fill.as_str());
    }
    assert(out@ =~= pad_right(s@, width as nat));
    out
}

/// `s` filled up on its left to `width` characters with `fill`.
pub fn padded_left(s: &str, fill: char, width: usize) -> (out: String)
    ensures
        out@ == pad_left(s@, fill, width as nat),
{
    let n: usize = s.unicode_len();
    let mut out: String = if n < width {
        repeat_of(fill, width - n)
    } else {
        String::new()
    };
    out.push_str(s);
    assert(out@ =~= pad_left(s@, fill, width as nat));
    out
}

// ── Laws ──────────────────────────────────────────────────────────────────

/// The visible ASCII characters are no white space; blanks, tabs and line ends are.
pub proof fn law_ascii_white_space(c: char)
    ensures
        '!' <= c <= '~' ==> !is_space(c),
        c == ' ' || c == '\t' || c == '\n' || c == '\r' ==> is_space(c),
{
}

proof fn lemma_leading_run(a: Seq<char>, b: Seq<char>)
    requires
        forall|i: int| 0 <= i < a.len() ==> is_space(#[trigger] a[i]),
        b.len() > 0 ==> !is_space(b[0]),
    ensures
        leading_spaces(a + b) == a.len(),
    decreases a.len(),
{
    if a.len() > 0 {
        assert((a + b)[0] == a[0]);
        let r = a.skip(1);
        assert forall|i: int| 0 <= i < r.len() implies is_space(#[trigger] r[i]) by {
            assert(r[i] == a[i + 1]);
        }
        lemma_leading_run(r, b);
        assert((a + b).skip(1) =~= r + b);
    } else {
        assert(a + b =~= b);
    }
}

proof fn lemma_trailing_run(a: Seq<char>, b: Seq<char>)
    requires
        forall|i: int| 0 <= i < b.len() ==> is_space(#[trigger] b[i]),
        a.len() > 0 ==> !is_space(a.last()),
    ensures
        trailing_spaces(a + b) == b.len(),
    decreases b.len(),
{
    if b.len() > 0 {
        assert((a + b).last() == b.last());
        let r = b.drop_last();
        assert forall|i: int| 0 <= i < r.len() implies is_space(#[trigger] r[i]) by {
            assert(r[i] == b[i]);
        }
        lemma_trailing_run(a, r);
        assert((a + b).drop_last() =~= a + r);
    } else {
        assert(a + b =~= a);
    }
}

/// Trimming takes away the white space round a text that neither begins nor ends
/// with any, and nothing else.
pub proof fn law_trim_takes_white_space(a: Seq<char>, m: Seq<char>, b: Seq<char>)
    requires
        forall|i: int| 0 <= i < a.len() ==> is_space(#[trigger] a[i]),
        forall|i: int| 0 <= i < b.len() ==> is_space(#[trigger] b[i]),
        m.len() > 0 ==> !is_space(m[0]) && !is_space(m.last()),
    ensures
        trim(a + m + b) == m,
{
    let s = a + m + b;
    if m.len() > 0 {
        lemma_leading_run(a, m + b);
        assert(s =~= a + (m + b));
        assert(trim_start(s) =~= m + b);
        lemma_trailing_run(m, b);
        assert(trim_end(m + b) =~= m);
    } else {
        let e = Seq::<char>::empty();
        assert forall|i: int| 0 <= i < s.len() implies is_space(#[trigger] s[i]) by {
            if i < a.len() {
                assert(s[i] == a[i]);
            } else {
                assert(s[i] == b[i - a.len()]);
            }
        }
        lemma_leading_run(s, e);
        assert(s + e =~= s);
        assert(trim_start(s) =~= e);
        assert(trim_end(e) =~= e);
        assert(m =~= e);
    }
}

/// A pattern is in a text exactly where the text is something, the pattern, and
/// something else.
pub proof fn law_contains(s: Seq<char>, pat: Seq<char>)
    ensures
        contains(s, pat) <==> exists|a: Seq<char>, b: Seq<char>| s == #[trigger] (a + pat + b),
{
    lemma_find_from(s, pat, 0);
    if contains(s, pat) {
        let i = find_from(s, pat, 0)->0;
        assert(s =~= s.take(i) + pat + s.skip(i + pat.len()));
    }
    if exists|a: Seq<char>, b: Seq<char>| s == #[trigger] (a + pat + b) {
        let (a, b) = choose|a: Seq<char>, b: Seq<char>| s == #[trigger] (a + pat + b);
        let i = a.len() as int;
        assert(s.subrange(i, i + pat.len()) =~= pat);
        assert(stands_at(s, pat, i));
    }
}

/// A prefix is stripped exactly where a text is the prefix and what is left, and a
/// suffix where it is what is left and the suffix.
pub proof fn law_stripping_undoes_joining(s: Seq<char>, pat: Seq<char>, rest: Seq<char>)
    ensures
        strip_prefix(s, pat) == Some(rest) <==> s == pat + rest,
        strip_suffix(s, pat) == Some(rest) <==> s == rest + pat,
        starts_with(s, pat) <==> strip_prefix(s, pat) is Some,
        ends_with(s, pat) <==> strip_suffix(s, pat) is Some,
{
    if s == pat + rest {
        assert(s.take(pat.len() as int) =~= pat);
        assert(s.skip(pat.len() as int) =~= rest);
    }
    if strip_prefix(s, pat) == Some(rest) {
        assert(s =~= pat + rest);
    }
    if s == rest + pat {
        assert(s.skip(s.len() - pat.len()) =~= pat);
        assert(s.take(s.len() - pat.len()) =~= rest);
    }
    if strip_suffix(s, pat) == Some(rest) {
        assert(s =~= rest + pat);
    }
}

/// A text splits round a character exactly into what stands before the first one
/// and what stands behind it.
pub proof fn law_split_once_undoes_joining(s: Seq<char>, c: char, a: Seq<char>, b: Seq<char>)
    ensures
        split_once(s, c) == Some((a, b)) <==> s == a.push(c) + b && !a.contains(c),
        split_once(s, c) is None <==> !s.contains(c),
{
    lemma_index_of(s, c);
    let i = index_of(s, c) as int;
    if split_once(s, c) == Some((a, b)) {
        assert(s =~= a.push(c) + b);
        assert(!a.contains(c)) by {
            if a.contains(c) {
                let k = choose|k: int| 0 <= k < a.len() && a[k] == c;
                assert(s[k] == c);
            }
        }
    }
    if s == a.push(c) + b && !a.contains(c) {
        let n = a.len() as int;
        assert(s[n] == c);
        if i < n {
            assert(a[i] == s[i]);
        }
        assert(i == n);
        assert(s.take(i) =~= a);
        assert(s.skip(i + 1) =~= b);
    }
    if s.contains(c) {
        let k = choose|k: int| 0 <= k < s.len() && s[k] == c;
        assert(k >= i);
    }
    if i < s.len() {
        assert(s[i] == c);
    }
}

/// A text is its first line, without a carriage return at its end, and the lines of
/// the rest.
pub proof fn law_lines_end_in_line_feeds(line: Seq<char>, rest: Seq<char>)
    requires
        !line.contains('\n'),
    ensures
        lines(Seq::<char>::empty()) == Seq::<Seq<char>>::empty(),
        line.len() > 0 ==> lines(line) == seq![line],
        line.len() == 0 || line.last() != '\r' ==> lines(line.push('\n') + rest) == seq![line]
            + lines(rest),
        lines(line.push('\r').push('\n') + rest) == seq![line] + lines(rest),
{
    lemma_index_of(line, '\n');
    let i = index_of(line, '\n') as int;
    if i < line.len() {
        assert(line.contains(line[i]));
    }
    let s = line.push('\n') + rest;
    law_split_once_undoes_joining(s, '\n', line, rest);
    lemma_index_of(s, '\n');
    assert(strip_cr(line) == line || (line.len() > 0 && line.last() == '\r'));
    let l = line.push('\r');
    assert(!l.contains('\n')) by {
        if l.contains('\n') {
            let k = choose|k: int| 0 <= k < l.len() && l[k] == '\n';
            assert(k < line.len());
            assert(line[k] == '\n');
        }
    }
    let t = l.push('\n') + rest;
    law_split_once_undoes_joining(t, '\n', l, rest);
    lemma_index_of(t, '\n');
    assert(l.drop_last() =~= line);
}

proof fn lemma_word_len_of(w: Seq<char>, b: Seq<char>)
    requires
        forall|i: int| 0 <= i < w.len() ==> !is_space(#[trigger] w[i]),
        b.len() > 0 ==> is_space(b[0]),
    ensures
        word_len(w + b) == w.len(),
    decreases w.len(),
{
    if w.len() > 0 {
        assert((w + b)[0] == w[0]);
        let r = w.skip(1);
        assert forall|i: int| 0 <= i < r.len() implies !is_space(#[trigger] r[i]) by {
            assert(r[i] == w[i + 1]);
        }
        lemma_word_len_of(r, b);
        assert((w + b).skip(1) =~= r + b);
    } else {
        assert(w + b =~= b);
    }
}

/// White space holds no words. Behind white space, a run of other characters up to
/// the next white space is the first word.
pub proof fn law_words_are_runs(a: Seq<char>, w: Seq<char>, rest: Seq<char>)
    requires
        forall|i: int| 0 <= i < a.len() ==> is_space(#[trigger] a[i]),
        forall|i: int| 0 <= i < w.len() ==> !is_space(#[trigger] w[i]),
        w.len() > 0,
        rest.len() > 0 ==> is_space(rest[0]),
    ensures
        words(a) == Seq::<Seq<char>>::empty(),
        words(a + w + rest) == seq![w] + words(rest),
{
    let e = Seq::<char>::empty();
    lemma_leading_run(a, e);
    assert(a + e =~= a);
    assert(trim_start(a) =~= e);
    let s = a + w + rest;
    lemma_leading_run(a, w + rest);
    assert(s =~= a + (w + rest));
    assert(trim_start(s) =~= w + rest);
    lemma_word_len_of(w, rest);
    assert((w + rest).take(w.len() as int) =~= w);
    assert((w + rest).skip(w.len() as int) =~= rest);
}

/// A number is one or more digits, with a plus sign before them or not, and each
/// digit counts ten times what the next one does.
pub proof fn law_numbers_are_digits(s: Seq<char>, c: char, max: nat, v: nat)
    ensures
        parse_nat(s) is Some <==> (s.len() > 0 && (s[0] == '+' ==> s.len() > 1) && forall|i: int|
            #![trigger s[i]]
            0 <= i < s.len() && !(i == 0 && s[0] == '+') ==> '0' <= s[i] <= '9'),
        '0' <= c <= '9' ==> parse_nat(seq![c]) == Some((c as nat - '0' as nat) as nat),
        '0' <= c <= '9' && parse_nat(s) is Some ==> parse_nat(s.push(c)) == Some(
            (parse_nat(s)->0 * 10 + (c as nat - '0' as nat)) as nat,
        ),
        parse_max(s, max) == Some(v) <==> parse_nat(s) == Some(v) && v <= max,
{
    reveal_with_fuel(digits_value, 2);
    let d = if s.len() > 0 && s[0] == '+' {
        s.skip(1)
    } else {
        s
    };
    if parse_nat(s) is Some {
        assert forall|i: int|
            #![trigger s[i]]
            0 <= i < s.len() && !(i == 0 && s[0] == '+') implies '0' <= s[i] <= '9' by {
            if s[0] == '+' {
                assert(is_digit(d[i - 1]));
            } else {
                assert(is_digit(d[i]));
            }
        }
    }
    if s.len() > 0 && (s[0] == '+' ==> s.len() > 1) && forall|i: int|
        #![trigger s[i]]
        0 <= i < s.len() && !(i == 0 && s[0] == '+') ==> '0' <= s[i] <= '9' {
        assert forall|i: int| 0 <= i < d.len() implies is_digit(d[i]) by {
            if s[0] == '+' {
                assert(d[i] == s[i + 1]);
            } else {
                assert(d[i] == s[i]);
            }
        }
    }
    if '0' <= c <= '9' {
        let one = seq![c];
        assert(one.drop_last() =~= Seq::<char>::empty());
        assert(digits_value(one) == (c as nat - '0' as nat) as nat);
        assert(all_digits(one));
        if parse_nat(s) is Some {
            let t = s.push(c);
            let e = if t[0] == '+' {
                t.skip(1)
            } else {
                t
            };
            assert(t[0] == s[0]);
            assert(e =~= d.push(c));
            assert(e.drop_last() =~= d);
            assert(all_digits(e)) by {
                assert forall|i: int| 0 <= i < e.len() implies is_digit(e[i]) by {
                    if i < d.len() {
                        assert(is_digit(d[i]));
                    }
                }
            }
        }
    }
}

/// A 64-bit integer that is printed, with its sign, is read back as it was.
pub proof fn law_signed_decimal_round_trip(n: i64)
    ensures
        parse_int(signed_decimal(n as int)) == Some(n as int),
{
    if n < 0 {
        let m = (-(n as int)) as nat;
        let s = signed_decimal(n as int);
        lemma_decimal_value(m);
        assert(s[0] == '-');
        assert(s.skip(1) =~= decimal(m));
    } else {
        law_decimal_round_trip(n as nat);
        lemma_decimal_value(n as nat);
        assert(is_digit(decimal(n as nat)[0]));
    }
}

/// A printed number has no zero before it.
pub proof fn law_decimal_has_no_leading_zero(n: nat)
    ensures
        n > 0 ==> decimal(n)[0] != '0',
        n == 0 ==> decimal(n) == seq!['0'],
    decreases n,
{
    if n >= 10 {
        law_decimal_has_no_leading_zero(n / 10);
        assert(decimal(n)[0] == decimal(n / 10)[0]);
    }
}

/// A hexadecimal number is up to 32 bits in digits of either case, each worth
/// sixteen times what the next one is.
pub proof fn law_hexadecimal_digits(s: Seq<char>, c: char, d: nat)
    requires
        s.len() > 0,
        s[0] != '+',
        ('0' <= c <= '9' && c as nat == '0' as nat + d) || ('a' <= c <= 'f' && c as nat + 10
            == 'a' as nat + d) || ('A' <= c <= 'F' && c as nat + 10 == 'A' as nat + d),
    ensures
        parse_hex(seq![c]) == Some(d),
        match parse_hex(s) {
            Some(v) => parse_hex(s.push(c)) == (if v * 16 + d <= u32::MAX {
                Some(v * 16 + d)
            } else {
                None
            }),
            None => parse_hex(s.push(c)) is None,
        },
        forall|x: char|
            !('0' <= x <= '9' || 'a' <= x <= 'f' || 'A' <= x <= 'F') ==> parse_hex(
                #[trigger] s.push(x),
            ) is None,
{
    reveal_with_fuel(hex_value, 2);
    assert(hex_digit(c) == Some(d));
    let one = seq![c];
    assert(one.drop_last() =~= Seq::<char>::empty());
    assert(all_hex(one));
    let t = s.push(c);
    assert(t.drop_last() =~= s);
    assert(t[0] == s[0]);
    if all_hex(s) {
        assert(all_hex(t));
    } else {
        let i = choose|i: int| 0 <= i < s.len() && hex_digit(#[trigger] s[i]) is None;
        assert(t[i] == s[i]);
    }
    assert forall|x: char|
        !('0' <= x <= '9' || 'a' <= x <= 'f' || 'A' <= x <= 'F') implies parse_hex(
        #[trigger] s.push(x),
    ) is None by {
        let u = s.push(x);
        assert(u[0] == s[0]);
        assert(hex_digit(u[u.len() - 1]) is None);
    }
}

/// A padded text is at least as long as the width asked for, no longer than it
/// needs, and the text stands at its one end with nothing but filling at the other.
pub proof fn law_padding(s: Seq<char>, fill: char, width: nat)
    ensures
        ({
            let n = if s.len() < width {
                width
            } else {
                s.len()
            };
            let r = pad_right(s, width);
            let l = pad_left(s, fill, width);
            &&& r.len() == n && l.len() == n
            &&& r.take(s.len() as int) == s
            &&& l.skip(n - s.len()) == s
            &&& forall|i: int| s.len() <= i < n ==> #[trigger] r[i] == ' '
            &&& forall|i: int| 0 <= i < n - s.len() ==> #[trigger] l[i] == fill
        }),
{
    let n = if s.len() < width {
        width
    } else {
        s.len()
    };
    assert(pad_right(s, width).take(s.len() as int) =~= s);
    assert(pad_left(s, fill, width).skip(n - s.len()) =~= s);
}

/// Trimming the start takes away the white space before a text that begins with none.
pub proof fn law_trim_start_takes_white_space(a: Seq<char>, m: Seq<char>)
    requires
        forall|i: int| 0 <= i < a.len() ==> is_space(#[trigger] a[i]),
        m.len() > 0 ==> !is_space(m[0]),
    ensures
        trim_start(a + m) == m,
{
    lemma_leading_run(a, m);
    assert(trim_start(a + m) =~= m);
}

} // verus!
