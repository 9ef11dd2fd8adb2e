//! Texts with fields to fill in.
//!
//! In a template, `%{name}` stands for the value of the field `name`; everything
//! else stands for itself.

use vstd::prelude::*;

use crate::text;

verus! {

/// Fields with their values, in the order in which they are looked up.
pub open spec fn field_views(f: Seq<(String, String)>) -> Seq<(Seq<char>, Seq<char>)> {
    Seq::new(f.len(), |i: int| (f[i].0@, f[i].1@))
}

/// The value of a field: the first of that name from `i` on, or nothing where
/// there is none.
pub open spec fn value_of(f: Seq<(Seq<char>, Seq<char>)>, name: Seq<char>, i: int) -> Seq<char>
    decreases f.len() - i,
{
    if i < 0 || i >= f.len() {
        Seq::empty()
    } else if f[i].0 == name {
        f[i].1
    } else {
        value_of(f, name, i + 1)
    }
}

/// Whether a field begins at the start of a text: `%{`, and a `}` after that.
pub open spec fn starts_field(t: Seq<char>) -> bool {
    t.len() >= 2 && t[0] == '%' && t[1] == '{' && text::index_of(t.skip(2), '}') < t.len() - 2
}

/// A template with its fields filled in.
pub open spec fn filled(t: Seq<char>, f: Seq<(Seq<char>, Seq<char>)>) -> Seq<char>
    decreases t.len(),
{
    if t.len() == 0 {
        Seq::empty()
    } else if starts_field(t) {
        let n = text::index_of(t.skip(2), '}') as int;
        value_of(f, t.subrange(2, 2 + n), 0) + filled(t.skip(3 + n), f)
    } else {
        seq![t[0]] + filled(t.skip(1), f)
    }
}

/// Adds a field.
pub fn put(f: &mut Vec<(String, String)>, name: &str, value: &str)
    ensures
        field_views(final(f)@) == field_views(old(f)@).push((name@, value@)),
{
    let ghost before = f@;
    let pair: (String, String) = (text::copy_str(name), text::copy_str(value));
    f.push(pair);
    assert(field_views(f@) =~= field_views(before).push((name@, value@)));
}

fn look_up(f: &Vec<(String, String)>, name: &str) -> (value: String)
    ensures
        value@ == value_of(field_views(f@), name@, 0),
{
    let ghost all = field_views(f@);
    let mut i: usize = 0;
    while i < f.len()
        invariant
            i <= f@.len(),
            all == field_views(f@),
            value_of(all, name@, 0) == value_of(all, name@, i as int),
        decreases f@.len() - i,
    {
        let pair = &f[i];
        assert(all[i as int] == (pair.0@, pair.1@));
        if text::str_eq(pair.0.as_str(), name) {
            return text::copy_str(pair.1.as_str());
        }
        i = i + 1;
    }
    String::new()
}

/// Fills in the fields of a template.
pub fn fill(template: &str, f: &Vec<(String, String)>) -> (out: String)
    ensures
        out@ == filled(template@, field_views(f@)),
{
    let cs = text::chars_of(template);
    let n: usize = cs.len();
    let ghost v = field_views(f@);
    let mut out: String = String::new();
    let mut i: usize = 0;
    assert(cs@.skip(0) =~= template@);
    assert(out@ + filled(cs@.skip(0), v) =~= filled(template@, v));
    while i < n
        invariant
            i <= n,
            n == cs@.len(),
            cs@ == template@,
            v == field_views(f@),
            out@ + filled(cs@.skip(i as int), v) == filled(template@, v),
        decreases n - i,
    {
        let ghost rest = cs@.skip(i as int);
        let ghost before = out@;
        let mut end: usize = n;
        if n - i >= 2 && cs[i] == '%' && cs[i + 1] == '{' {
            end = text::index_from(&cs, '}', i + 2, n);
            assert(cs@.subrange(i + 2, n as int) =~= rest.skip(2));
        }
        if end < n {
            let name = text::string_of(&cs, i + 2, end);
            let value = look_up(f, name.as_str());
            out.push_str(value.as_str());
            proof {
                assert(starts_field(rest));
                assert(rest.subrange(2, end - i) =~= name@);
                assert(rest.skip(end - i + 1) =~= cs@.skip(end + 1));
                assert(out@ + filled(cs@.skip(end + 1), v) =~= before + (value@ + filled(
                    cs@.skip(end + 1),
                    v,
                )));
            }
            i = end + 1;
        } else {
            out.push(cs[i]);
            proof {
                assert(!starts_field(rest));
                assert(rest.skip(1) =~= cs@.skip(i + 1));
                assert(out@ + filled(cs@.skip(i + 1), v) =~= before + (seq![rest[0]] + filled(
                    cs@.skip(i + 1),
                    v,
                )));
            }
            i = i + 1;
        }
    }
    assert(cs@.skip(i as int) =~= Seq::empty());
    assert(out@ + filled(cs@.skip(i as int), v) =~= out@);
    out
}

/// A text without `%` is its own filled form, whatever the fields are.
pub proof fn law_plain_text_unchanged(t: Seq<char>, f: Seq<(Seq<char>, Seq<char>)>)
    requires
        !t.contains('%'),
    ensures
        filled(t, f) == t,
    decreases t.len(),
{
    if t.len() > 0 {
        assert(t[0] != '%');
        let rest = t.skip(1);
        assert(!rest.contains('%')) by {
            if rest.contains('%') {
                let i = choose|i: int| 0 <= i < rest.len() && rest[i] == '%';
                assert(t[i + 1] == '%');
            }
        }
        law_plain_text_unchanged(rest, f);
        assert(seq![t[0]] + rest =~= t);
    } else {
        assert(filled(t, f) =~= t);
    }
}

/// The value of a field is that of the first one with its name, and empty where
/// there is none.
pub proof fn law_field_value(f: Seq<(Seq<char>, Seq<char>)>, name: Seq<char>, i: int)
    requires
        0 <= i <= f.len(),
        forall|j: int| 0 <= j < i ==> (#[trigger] f[j]).0 != name,
    ensures
        i < f.len() && f[i].0 == name ==> value_of(f, name, 0) == f[i].1,
        i == f.len() ==> value_of(f, name, 0) == Seq::<char>::empty(),
{
    lemma_value_from(f, name, 0, i);
}

proof fn lemma_value_from(f: Seq<(Seq<char>, Seq<char>)>, name: Seq<char>, from: int, i: int)
    requires
        0 <= from <= i <= f.len(),
        forall|j: int| from <= j < i ==> (#[trigger] f[j]).0 != name,
    ensures
        value_of(f, name, from) == value_of(f, name, i),
    decreases i - from,
{
    if from < i {
        assert(f[from].0 != name);
        lemma_value_from(f, name, from + 1, i);
    }
}

/// What stands before the first percent sign is kept, and a field is replaced by
/// its value.
pub proof fn law_fields_are_replaced(
    plain: Seq<char>,
    name: Seq<char>,
    rest: Seq<char>,
    f: Seq<(Seq<char>, Seq<char>)>,
)
    requires
        !plain.contains('%'),
        !name.contains('}'),
    ensures
        filled(plain + rest, f) == plain + filled(rest, f),
        filled(seq!['%', '{'] + name + seq!['}'] + rest, f) == value_of(f, name, 0) + filled(
            rest,
            f,
        ),
    decreases plain.len(),
{
    let t = seq!['%', '{'] + name + seq!['}'] + rest;
    let u = t.skip(2);
    text::law_split_once_undoes_joining(u, '}', name, rest);
    assert(u =~= name.push('}') + rest);
    text::lemma_index_of(u, '}');
    assert(u.take(text::index_of(u, '}') as int) == name);
    assert(text::index_of(u, '}') == name.len());
    assert(t.subrange(2, 2 + name.len() as int) =~= name);
    assert(t.skip(3 + name.len() as int) =~= rest);
    if plain.len() == 0 {
        assert(plain + rest =~= rest);
        assert(plain + filled(rest, f) =~= filled(rest, f));
    } else {
        let p = plain.skip(1);
        assert(!p.contains('%')) by {
            if p.contains('%') {
                let k = choose|k: int| 0 <= k < p.len() && p[k] == '%';
                assert(plain[k + 1] == '%');
            }
        }
        law_fields_are_replaced(p, name, rest, f);
        assert((plain + rest)[0] == plain[0]);
        assert(plain.contains(plain[0]));
        assert((plain + rest).skip(1) =~= p + rest);
        assert(seq![plain[0]] + (p + filled(rest, f)) =~= plain + filled(rest, f));
    }
}

} // verus!
