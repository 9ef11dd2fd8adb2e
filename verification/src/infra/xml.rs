//! The little XML reading that the cloud APIs need: the text between a tag and
//! the tag that closes it.

use vstd::prelude::*;

use crate::text;

verus! {

/// `<tag>`
pub open spec fn open_tag(tag: Seq<char>) -> Seq<char> {
    "<"@ + tag + ">"@
}

/// `</tag>`
pub open spec fn close_tag(tag: Seq<char>) -> Seq<char> {
    "</"@ + tag + ">"@
}

fn open_of(tag: &str) -> (s: Vec<char>)
    ensures
        s@ == open_tag(tag@),
        s@.len() > 0,
{
    let mut t = text::copy_str("<");
    t.push_str(tag);
    t.push_str(">");
    proof {
        reveal_strlit("<");
    }
    text::chars_of(t.as_str())
}

fn close_of(tag: &str) -> (s: Vec<char>)
    ensures
        s@ == close_tag(tag@),
        s@.len() > 0,
{
    let mut t = text::copy_str("</");
    t.push_str(tag);
    t.push_str(">");
    proof {
        reveal_strlit("</");
    }
    text::chars_of(t.as_str())
}

/// Where the `depth`-th enclosing element, counted from inside, is closed at
/// or after `pos`: every opening tag on the way is matched by a closing one.
pub open spec fn closing(
    h: Seq<char>,
    open: Seq<char>,
    close: Seq<char>,
    pos: int,
    depth: nat,
) -> Option<int>
    decreases h.len() - pos,
{
    if pos < 0 || open.len() == 0 || close.len() == 0 {
        None
    } else {
        match (text::find_from(h, open, pos), text::find_from(h, close, pos)) {
            (o, Some(c)) => if o is Some && pos <= o->0 < c && o->0 + open.len() <= h.len() {
                closing(h, open, close, o->0 + open.len(), depth + 1)
            } else if depth <= 1 {
                Some(c)
            } else if pos <= c && c + close.len() <= h.len() {
                closing(h, open, close, c + close.len(), (depth - 1) as nat)
            } else {
                None
            },
            (_, None) => None,
        }
    }
}

/// The bounds of the content of the first `<tag>`, up to the closing tag that
/// balances it.
pub open spec fn balanced(h: Seq<char>, tag: Seq<char>) -> Option<(int, int)> {
    let open = open_tag(tag);
    match text::find_from(h, open, 0) {
        None => None,
        Some(i) => match closing(h, open, close_tag(tag), i + open.len(), 1) {
            Some(c) => Some((i + open.len(), c)),
            None => None,
        },
    }
}

/// A closing tag that is found stands in the text.
pub proof fn lemma_closing(
    h: Seq<char>,
    open: Seq<char>,
    close: Seq<char>,
    pos: int,
    depth: nat,
)
    requires
        0 <= pos,
    ensures
        closing(h, open, close, pos, depth) matches Some(c) ==> pos <= c && text::stands_at(
            h,
            close,
            c,
        ),
    decreases h.len() - pos,
{
    if open.len() > 0 && close.len() > 0 {
        text::lemma_find_from(h, open, pos);
        text::lemma_find_from(h, close, pos);
        match (text::find_from(h, open, pos), text::find_from(h, close, pos)) {
            (o, Some(c)) => {
                if o is Some && pos <= o->0 < c && o->0 + open.len() <= h.len() {
                    lemma_closing(h, open, close, o->0 + open.len(), depth + 1);
                } else if depth > 1 {
                    lemma_closing(h, open, close, c + close.len(), (depth - 1) as nat);
                }
            },
            _ => {},
        }
    }
}

/// The content that is found lies between an opening and a closing tag.
pub proof fn law_balanced_is_enclosed(h: Seq<char>, tag: Seq<char>)
    ensures
        balanced(h, tag) matches Some(r) ==> {
            &&& open_tag(tag).len() <= r.0 <= r.1
            &&& text::stands_at(h, open_tag(tag), r.0 - open_tag(tag).len())
            &&& text::stands_at(h, close_tag(tag), r.1)
        },
{
    text::lemma_find_from(h, open_tag(tag), 0);
    match text::find_from(h, open_tag(tag), 0) {
        Some(i) => lemma_closing(h, open_tag(tag), close_tag(tag), i + open_tag(tag).len(), 1),
        None => {},
    }
}

/// The bounds of the content of the first `<tag>`.
pub fn balanced_bounds(cs: &Vec<char>, tag: &str) -> (r: Option<(usize, usize)>)
    ensures
        match r {
            Some(b) => balanced(cs@, tag@) == Some((b.0 as int, b.1 as int)) && b.0 <= b.1 && b.1
                + close_tag(tag@).len() <= cs@.len(),
            None => balanced(cs@, tag@) is None,
        },
{
    let open = open_of(tag);
    let close = close_of(tag);
    let first: usize = match text::position(cs, &open, 0) {
        Some(i) => i,
        None => return None,
    };
    let n: usize = cs.len();
    let start: usize = first + open.len();
    let mut depth: usize = 1;
    let mut pos: usize = start;
    loop
        invariant
            open@ == open_tag(tag@),
            close@ == close_tag(tag@),
            open@.len() > 0,
            close@.len() > 0,
            n == cs@.len(),
            start <= pos <= n,
            1 <= depth <= pos,
            balanced(cs@, tag@) == (match closing(
                cs@,
                open@,
                close@,
                pos as int,
                depth as nat,
            ) {
                Some(c) => Some((start as int, c)),
                None => None,
            }),
        decreases cs@.len() - pos,
    {
        let o: Option<usize> = text::position(cs, &open, pos);
        let c: usize = match text::position(cs, &close, pos) {
            Some(c) => c,
            None => return None,
        };
        let nested: Option<usize> = match o {
            Some(k) => if k < c {
                Some(k)
            } else {
                None
            },
            None => None,
        };
        match nested {
            Some(k) => {
                depth = depth + 1;
                pos = k + open.len();
            },
            None => {
                if depth == 1 {
                    return Some((start, c));
                }
                depth = depth - 1;
                pos = c + close.len();
            },
        }
    }
}

/// The content between the first `<tag>` and the `</tag>` that balances it.
pub fn extract_balanced<'a>(haystack: &'a str, tag: &str) -> (r: Option<&'a str>)
    ensures
        match r {
            Some(s) => balanced(haystack@, tag@) is Some && s@ == haystack@.subrange(
                (balanced(haystack@, tag@)->0).0,
                (balanced(haystack@, tag@)->0).1,
            ),
            None => balanced(haystack@, tag@) is None,
        },
{
    let cs = text::chars_of(haystack);
    match balanced_bounds(&cs, tag) {
        Some(b) => Some(haystack.substring_char(b.0, b.1)),
        None => None,
    }
}

/// The bounds of the text of the first `<tag>` at or after `pos`, up to the
/// next `</tag>`.
pub open spec fn scalar_from(h: Seq<char>, tag: Seq<char>, pos: int) -> Option<(int, int)> {
    match text::find_from(h, open_tag(tag), pos) {
        None => None,
        Some(i) => match text::find_from(h, close_tag(tag), i + open_tag(tag).len()) {
            Some(e) => Some((i + open_tag(tag).len(), e)),
            None => None,
        },
    }
}

/// The text of the first `<tag>`, without white space round it.
pub open spec fn scalar(h: Seq<char>, tag: Seq<char>) -> Option<Seq<char>> {
    match scalar_from(h, tag, 0) {
        Some(r) => Some(text::trim(h.subrange(r.0, r.1))),
        None => None,
    }
}

fn scalar_bounds(cs: &Vec<char>, open: &Vec<char>, close: &Vec<char>, pos: usize, tag: Ghost<
    Seq<char>,
>) -> (r: Option<(usize, usize)>)
    requires
        pos <= cs@.len(),
        open@ == open_tag(tag@),
        close@ == close_tag(tag@),
    ensures
        match r {
            Some(b) => scalar_from(cs@, tag@, pos as int) == Some((b.0 as int, b.1 as int)) && pos
                + open@.len() <= b.0 <= b.1 && b.1 + close@.len() <= cs@.len(),
            None => scalar_from(cs@, tag@, pos as int) is None,
        },
{
    match text::position(cs, open, pos) {
        None => None,
        Some(i) => {
            assert(i + open@.len() <= cs.len());
            let start: usize = i + open.len();
            match text::position(cs, close, start) {
                Some(e) => Some((start, e)),
                None => None,
            }
        },
    }
}

/// The text of a simple tag without nesting, without white space round it.
pub fn extract_scalar<'a>(haystack: &'a str, tag: &str) -> (r: Option<&'a str>)
    ensures
        match r {
            Some(s) => scalar(haystack@, tag@) == Some(s@),
            None => scalar(haystack@, tag@) is None,
        },
{
    let cs = text::chars_of(haystack);
    let open = open_of(tag);
    let close = close_of(tag);
    match scalar_bounds(&cs, &open, &close, 0, Ghost(tag@)) {
        Some(b) => {
            let t = text::trim_bounds(&cs, b.0, b.1);
            Some(haystack.substring_char(t.0, t.1))
        },
        None => None,
    }
}

/// The texts of all occurrences of a tag at or after `pos`.
pub open spec fn scalars_from(h: Seq<char>, tag: Seq<char>, pos: int) -> Seq<Seq<char>>
    decreases h.len() - pos,
{
    match scalar_from(h, tag, pos) {
        Some(r) => if 0 <= pos < r.0 <= r.1 && r.1 + close_tag(tag).len() <= h.len() {
            seq![text::trim(h.subrange(r.0, r.1))] + scalars_from(
                h,
                tag,
                r.1 + close_tag(tag).len(),
            )
        } else {
            Seq::empty()
        },
        None => Seq::empty(),
    }
}

/// The texts of every occurrence of a simple tag.
pub fn extract_all_scalars(haystack: &str, tag: &str) -> (out: Vec<String>)
    ensures
        text::texts(out@) == scalars_from(haystack@, tag@, 0),
{
    let cs = text::chars_of(haystack);
    let open = open_of(tag);
    let close = close_of(tag);
    let mut out: Vec<String> = Vec::new();
    let mut pos: usize = 0;
    assert(text::texts(out@) + scalars_from(cs@, tag@, 0) =~= scalars_from(haystack@, tag@, 0));
    loop
        invariant
            cs@ == haystack@,
            open@ == open_tag(tag@),
            close@ == close_tag(tag@),
            open@.len() > 0,
            close@.len() > 0,
            pos <= cs@.len(),
            text::texts(out@) + scalars_from(cs@, tag@, pos as int) == scalars_from(
                haystack@,
                tag@,
                0,
            ),
        decreases cs@.len() - pos,
    {
        let ghost before = out@;
        match scalar_bounds(&cs, &open, &close, pos, Ghost(tag@)) {
            None => {
                assert(scalars_from(cs@, tag@, pos as int) =~= Seq::<Seq<char>>::empty());
                assert(text::texts(out@) + scalars_from(cs@, tag@, pos as int) =~= text::texts(out@));
                return out;
            },
            Some(b) => {
                let t = text::trim_bounds(&cs, b.0, b.1);
                let s = text::string_of(&cs, t.0, t.1);
                proof {
                    text::lemma_texts_push(before, s);
                    let next = b.1 + close@.len();
                    assert(text::texts(before).push(s@) + scalars_from(cs@, tag@, next)
                        =~= text::texts(before) + (seq![s@] + scalars_from(cs@, tag@, next)));
                }
                out.push(s);
                assert(b.1 + close@.len() <= cs.len());
                pos = b.1 + close.len();
            },
        }
    }
}

/// A tag whose text holds no closing tag of its own gives that text back,
/// without the white space round it.
pub proof fn law_scalar_of_element(tag: Seq<char>, body: Seq<char>, rest: Seq<char>)
    requires
        text::find_from(open_tag(tag) + body + close_tag(tag) + rest, close_tag(tag), open_tag(
            tag,
        ).len() as int) == Some((open_tag(tag) + body).len() as int),
    ensures
        scalar(open_tag(tag) + body + close_tag(tag) + rest, tag) == Some(text::trim(body)),
{
    let h = open_tag(tag) + body + close_tag(tag) + rest;
    assert(h.subrange(0, open_tag(tag).len() as int) =~= open_tag(tag));
    assert(text::stands_at(h, open_tag(tag), 0));
    assert(text::find_from(h, open_tag(tag), 0) == Some(0int));
    assert(h.subrange(open_tag(tag).len() as int, (open_tag(tag) + body).len() as int) =~= body);
}

/// A pattern that begins with `<` is found at the first `<` where it stands there.
proof fn lemma_find_at_bracket(h: Seq<char>, pat: Seq<char>, from: int, k: int)
    requires
        0 <= from <= k < h.len(),
        pat.len() > 0,
        pat[0] == '<',
        forall|i: int| from <= i < k ==> #[trigger] h[i] != '<',
    ensures
        text::stands_at(h, pat, k) ==> text::find_from(h, pat, from) == Some(k),
        text::find_from(h, pat, from) matches Some(i) ==> i >= k,
{
    text::lemma_find_from(h, pat, from);
    match text::find_from(h, pat, from) {
        Some(i) => {
            assert(h.subrange(i, i + pat.len())[0] == h[i]);
            assert(i >= k);
        },
        None => {},
    }
}

proof fn lemma_part(a: Seq<char>, m: Seq<char>, b: Seq<char>)
    ensures
        text::stands_at(a + m + b, m, a.len() as int),
{
    assert((a + m + b).subrange(a.len() as int, (a.len() + m.len()) as int) =~= m);
}

/// An element without other tags in it is found whole.
pub proof fn law_balanced_of_element(tag: Seq<char>, a: Seq<char>, body: Seq<char>, rest: Seq<char>)
    requires
        !a.contains('<'),
        !body.contains('<'),
    ensures
        ({
            let h = a + open_tag(tag) + body + close_tag(tag) + rest;
            let start = (a + open_tag(tag)).len() as int;
            &&& balanced(h, tag) == Some((start, start + body.len()))
            &&& h.subrange(start, start + body.len()) == body
            &&& scalar(h, tag) == Some(text::trim(body))
        }),
{
    reveal_strlit("<");
    reveal_strlit("</");
    let open = open_tag(tag);
    let close = close_tag(tag);
    let h = a + open + body + close + rest;
    let start = (a + open).len() as int;
    let end = start + body.len();
    lemma_part(a, open, body + close + rest);
    assert(h =~= a + open + (body + close + rest));
    lemma_part(a + open + body, close, rest);
    assert forall|i: int| 0 <= i < a.len() implies #[trigger] h[i] != '<' by {
        assert(h[i] == a[i]);
    }
    lemma_find_at_bracket(h, open, 0, a.len() as int);
    assert forall|i: int| start <= i < end implies #[trigger] h[i] != '<' by {
        assert(h[i] == body[i - start]);
    }
    lemma_find_at_bracket(h, close, start, end);
    lemma_find_at_bracket(h, open, start, end);
    assert(h.subrange(start, end) =~= body);
}

proof fn lemma_closing_tag_next(
    h: Seq<char>,
    open: Seq<char>,
    close: Seq<char>,
    pos: int,
    k: int,
    depth: nat,
)
    requires
        0 <= pos <= k < h.len(),
        open.len() > 0 && open[0] == '<',
        close.len() > 0 && close[0] == '<',
        forall|i: int| pos <= i < k ==> #[trigger] h[i] != '<',
        text::stands_at(h, close, k),
    ensures
        depth <= 1 ==> closing(h, open, close, pos, depth) == Some(k),
        depth > 1 ==> closing(h, open, close, pos, depth) == closing(
            h,
            open,
            close,
            k + close.len(),
            (depth - 1) as nat,
        ),
{
    lemma_find_at_bracket(h, close, pos, k);
    lemma_find_at_bracket(h, open, pos, k);
}

proof fn lemma_opening_tag_next(
    h: Seq<char>,
    open: Seq<char>,
    close: Seq<char>,
    pos: int,
    k: int,
    later: int,
    depth: nat,
)
    requires
        0 <= pos <= k < later < h.len(),
        open.len() > 1 && open[0] == '<',
        close.len() > 1 && close[0] == '<',
        open[1] != close[1],
        forall|i: int| pos <= i < k ==> #[trigger] h[i] != '<',
        text::stands_at(h, open, k),
        text::stands_at(h, close, later),
    ensures
        closing(h, open, close, pos, depth) == closing(
            h,
            open,
            close,
            k + open.len(),
            depth + 1,
        ),
{
    lemma_find_at_bracket(h, open, pos, k);
    lemma_find_at_bracket(h, close, pos, k);
    text::lemma_find_from(h, close, pos);
    assert(text::find_from(h, close, pos) is Some);
    assert(!text::stands_at(h, close, k)) by {
        assert(h.subrange(k, k + open.len())[1] == h[k + 1]);
        if text::stands_at(h, close, k) {
            assert(h.subrange(k, k + close.len())[1] == h[k + 1]);
        }
    }
}

/// An element of the same name inside an element is part of its content: the tag
/// that closes the inner one does not close the outer one.
pub proof fn law_balanced_of_nested_element(
    tag: Seq<char>,
    a: Seq<char>,
    b: Seq<char>,
    c: Seq<char>,
    rest: Seq<char>,
)
    requires
        !a.contains('<'),
        !b.contains('<'),
        !c.contains('<'),
        tag.len() > 0 ==> tag[0] != '/',
    ensures
        ({
            let content = a + open_tag(tag) + b + close_tag(tag) + c;
            let h = open_tag(tag) + content + close_tag(tag) + rest;
            let start = open_tag(tag).len() as int;
            &&& balanced(h, tag) == Some((start, start + content.len()))
            &&& h.subrange(start, start + content.len()) == content
        }),
{
    reveal_strlit("<");
    reveal_strlit("</");
    reveal_strlit(">");
    assert(open_tag(tag)[0] == '<' && close_tag(tag)[0] == '<');
    assert(open_tag(tag)[1] != '/' && close_tag(tag)[1] == '/');
    lemma_nested(open_tag(tag), close_tag(tag), a, b, c, rest);
}

proof fn lemma_nested(
    open: Seq<char>,
    close: Seq<char>,
    a: Seq<char>,
    b: Seq<char>,
    c: Seq<char>,
    rest: Seq<char>,
)
    requires
        !a.contains('<'),
        !b.contains('<'),
        !c.contains('<'),
        open.len() > 1 && open[0] == '<',
        close.len() > 1 && close[0] == '<',
        open[1] != close[1],
    ensures
        ({
            let content = a + open + b + close + c;
            let h = open + content + close + rest;
            let start = open.len() as int;
            &&& text::find_from(h, open, 0) == Some(0int)
            &&& closing(h, open, close, start, 1) == Some(start + content.len())
            &&& h.subrange(start, start + content.len()) == content
        }),
{
    let content = a + open + b + close + c;
    let h = open + content + close + rest;
    let start = open.len() as int;
    let k1 = start + a.len();
    let s2 = k1 + open.len();
    let k2 = s2 + b.len();
    let s3 = k2 + close.len();
    let k3 = s3 + c.len();
    assert(h.subrange(0, start) =~= open);
    assert(text::stands_at(h, open, 0));
    assert(h.subrange(k1, s2) =~= open);
    assert(text::stands_at(h, open, k1));
    assert(h.subrange(k2, s3) =~= close);
    assert(text::stands_at(h, close, k2));
    assert(h.subrange(k3, k3 + close.len()) =~= close);
    assert(text::stands_at(h, close, k3));
    assert forall|i: int| start <= i < k1 implies #[trigger] h[i] != '<' by {
        assert(h[i] == a[i - start]);
    }
    assert forall|i: int| s2 <= i < k2 implies #[trigger] h[i] != '<' by {
        assert(h[i] == b[i - s2]);
    }
    assert forall|i: int| s3 <= i < k3 implies #[trigger] h[i] != '<' by {
        assert(h[i] == c[i - s3]);
    }
    lemma_opening_tag_next(h, open, close, start, k1, k2, 1);
    lemma_closing_tag_next(h, open, close, s2, k2, 2);
    lemma_closing_tag_next(h, open, close, s3, k3, 1);
    assert(h.subrange(start, k3) =~= content);
}

/// The texts of a tag come one after the other: that of the first element, and then
/// those behind it. A text without brackets holds none.
pub proof fn law_scalars_element_by_element(
    tag: Seq<char>,
    a: Seq<char>,
    body: Seq<char>,
    rest: Seq<char>,
)
    requires
        !a.contains('<'),
        !body.contains('<'),
    ensures
        scalars_from(a, tag, 0) == Seq::<Seq<char>>::empty(),
        ({
            let element = a + open_tag(tag) + body + close_tag(tag);
            let h = element + rest;
            scalars_from(h, tag, 0) == seq![text::trim(body)] + scalars_from(
                h,
                tag,
                element.len() as int,
            )
        }),
{
    reveal_strlit("<");
    reveal_strlit("</");
    let open = open_tag(tag);
    let close = close_tag(tag);
    text::lemma_find_from(a, open, 0);
    match text::find_from(a, open, 0) {
        Some(i) => {
            assert(a.subrange(i, i + open.len())[0] == a[i]);
            assert(a.contains(a[i]));
        },
        None => {},
    }
    let element = a + open + body + close;
    let h = element + rest;
    law_balanced_of_element(tag, a, body, rest);
    assert(h == a + open + body + close + rest);
    let start = (a + open).len() as int;
    let end = start + body.len();
    lemma_part(a, open, body + close + rest);
    assert(h =~= a + open + (body + close + rest));
    lemma_part(a + open + body, close, rest);
    assert forall|i: int| 0 <= i < a.len() implies #[trigger] h[i] != '<' by {
        assert(h[i] == a[i]);
    }
    lemma_find_at_bracket(h, open, 0, a.len() as int);
    assert forall|i: int| start <= i < end implies #[trigger] h[i] != '<' by {
        assert(h[i] == body[i - start]);
    }
    lemma_find_at_bracket(h, close, start, end);
    assert(scalar_from(h, tag, 0) == Some((start, end)));
}

} // verus!
