//! The record files of a test run: their names and their lines.

use vstd::prelude::*;

use crate::infra::aws::utc_stamp_now;
use crate::json;
use crate::json::FieldView;
use crate::proto::{RecordView, TransferRecord};
use crate::text;

verus! {

// ── Names ─────────────────────────────────────────────────────────────────

/// Whether a character is an ASCII letter or digit.
pub open spec fn is_alphanumeric(c: char) -> bool {
    ('0' <= c && c <= '9') || ('A' <= c && c <= 'Z') || ('a' <= c && c <= 'z')
}

fn alphanumeric(c: char) -> (yes: bool)
    ensures
        yes == is_alphanumeric(c),
{
    ('0' <= c && c <= '9') || ('A' <= c && c <= 'Z') || ('a' <= c && c <= 'z')
}

/// Whether a character can stand in a file name everywhere.
pub open spec fn is_safe(c: char) -> bool {
    is_alphanumeric(c) || c == '-' || c == '_'
}

/// A text with all characters that are not safe replaced by `_`.
pub open spec fn cleaned(s: Seq<char>) -> Seq<char> {
    Seq::new(
        s.len(),
        |i: int|
            if is_safe(s[i]) {
                s[i]
            } else {
                '_'
            },
    )
}

/// A text without leading underscores and with runs of underscores collapsed.
pub open spec fn squeezed(s: Seq<char>) -> Seq<char>
    decreases s.len(),
{
    if s.len() == 0 {
        s
    } else {
        let front = squeezed(s.drop_last());
        if s.last() == '_' && (front.len() == 0 || front.last() == '_') {
            front
        } else {
            front.push(s.last())
        }
    }
}

/// The prefix of a record file for a plan of this name.
pub open spec fn record_prefix(s: Seq<char>) -> Seq<char> {
    let q = squeezed(cleaned(s));
    let t = if q.len() > 0 && q.last() == '_' {
        q.drop_last()
    } else {
        q
    };
    if t.len() == 0 {
        "plan"@
    } else {
        t
    }
}

/// A prefix that can be used in file names everywhere: letters, digits, `-` and
/// `_` stay, everything else becomes `_`; runs of underscores collapse, leading
/// and trailing ones go. Where nothing is left it is `plan`.
pub fn safe_record_prefix(s: &str) -> (out: String)
    ensures
        out@ == record_prefix(s@),
{
    let cs = text::chars_of(s);
    let ghost c = cleaned(s@);
    let mut kept: Vec<char> = Vec::new();
    let mut i: usize = 0;
    assert(c.take(0) =~= Seq::<char>::empty());
    while i < cs.len()
        invariant
            i <= cs@.len(),
            cs@ == s@,
            c == cleaned(s@),
            kept@ == squeezed(c.take(i as int)),
        decreases cs@.len() - i,
    {
        let x: char = if alphanumeric(cs[i]) || cs[i] == '-' || cs[i] == '_' {
            cs[i]
        } else {
            '_'
        };
        proof {
            assert(c.take(i + 1).last() == x);
            assert(c.take(i + 1).drop_last() =~= c.take(i as int));
        }
        let n: usize = kept.len();
        if !(x == '_' && (n == 0 || kept[n - 1] == '_')) {
            kept.push(x);
        }
        i = i + 1;
    }
    assert(c.take(i as int) =~= c);
    let n: usize = kept.len();
    let end: usize = if n > 0 && kept[n - 1] == '_' {
        n - 1
    } else {
        n
    };
    assert(kept@.subrange(0, n as int) =~= kept@);
    if n > 0 {
        assert(kept@.subrange(0, n - 1) =~= kept@.drop_last());
    }
    if end == 0 {
        text::copy_str("plan")
    } else {
        text::string_of(&kept, 0, end)
    }
}

/// The prefix of record files for a plan that was read from a file: from the
/// stem of the file's name, or from the id of the plan where there is none.
pub fn stem_from_path(stem: &Option<String>, plan_id: &str) -> (out: String)
    ensures
        out@ == record_prefix(
            match *stem {
                Some(s) => s@,
                None => plan_id@,
            },
        ),
{
    match stem {
        Some(s) => safe_record_prefix(s.as_str()),
        None => safe_record_prefix(plan_id),
    }
}

/// How many underscores a text starts with.
pub open spec fn leading_underscores(s: Seq<char>) -> nat
    decreases s.len(),
{
    if s.len() > 0 && s[0] == '_' {
        1 + leading_underscores(s.skip(1))
    } else {
        0
    }
}

/// How many underscores a text ends with.
pub open spec fn trailing_underscores(s: Seq<char>) -> nat
    decreases s.len(),
{
    if s.len() > 0 && s.last() == '_' {
        1 + trailing_underscores(s.drop_last())
    } else {
        0
    }
}

/// A text without leading and trailing underscores.
pub open spec fn trim_underscores(s: Seq<char>) -> Seq<char> {
    let t = s.skip(leading_underscores(s) as int);
    t.take(t.len() - trailing_underscores(t))
}

/// The name of a record file: prefix and time.
pub open spec fn record_file_name(prefix: Seq<char>, stamp: Seq<char>) -> Seq<char> {
    let t = trim_underscores(cleaned(prefix));
    (if t.len() == 0 {
        "plan"@
    } else {
        t
    }) + "_"@ + stamp + ".ndjson"@
}

proof fn lemma_leading(s: Seq<char>)
    ensures
        leading_underscores(s) <= s.len(),
    decreases s.len(),
{
    if s.len() > 0 && s[0] == '_' {
        lemma_leading(s.skip(1));
    }
}

proof fn lemma_trailing(s: Seq<char>)
    ensures
        trailing_underscores(s) <= s.len(),
    decreases s.len(),
{
    if s.len() > 0 && s.last() == '_' {
        lemma_trailing(s.drop_last());
    }
}

/// The name of a record file that is opened at the time `stamp`. The prefix is
/// cleaned once more, whatever it is.
pub fn file_name_at(prefix: &str, stamp: &str) -> (out: String)
    ensures
        out@ == record_file_name(prefix@, stamp@),
{
    let cs = text::chars_of(prefix);
    let ghost c = cleaned(prefix@);
    let mut clean: Vec<char> = Vec::new();
    let mut i: usize = 0;
    while i < cs.len()
        invariant
            i <= cs@.len(),
            cs@ == prefix@,
            c == cleaned(prefix@),
            clean@ == c.take(i as int),
        decreases cs@.len() - i,
    {
        let x: char = if alphanumeric(cs[i]) || cs[i] == '-' || cs[i] == '_' {
            cs[i]
        } else {
            '_'
        };
        clean.push(x);
        assert(clean@ =~= c.take(i + 1));
        i = i + 1;
    }
    assert(clean@ =~= c);
    let n: usize = clean.len();
    let mut from: usize = 0;
    assert(c.skip(0) =~= c);
    proof {
        lemma_leading(c);
    }
    while from < n && clean[from] == '_'
        invariant
            from <= n,
            n == clean@.len(),
            clean@ == c,
            from + leading_underscores(c.skip(from as int)) == leading_underscores(c),
        decreases n - from,
    {
        assert(c.skip(from as int).skip(1) =~= c.skip(from + 1));
        from = from + 1;
    }
    let ghost t = c.skip(from as int);
    let mut to: usize = n;
    assert(t.take(t.len() as int) =~= t);
    while to > from && clean[to - 1] == '_'
        invariant
            from <= to <= n,
            n == clean@.len(),
            clean@ == c,
            t == c.skip(from as int),
            trailing_underscores(t.take(to - from)) + (n - to) == trailing_underscores(t),
        decreases to - from,
    {
        assert(t.take(to - from).last() == c[to - 1]);
        assert(t.take(to - from).drop_last() =~= t.take(to - from - 1));
        to = to - 1;
    }
    proof {
        lemma_trailing(t);
        if to > from {
            assert(t.take(to - from).last() == c[to - 1]);
        }
        assert(c.subrange(from as int, to as int) =~= t.take(to - from));
    }
    let mut out = if from == to {
        text::copy_str("plan")
    } else {
        text::string_of(&clean, from, to)
    };
    out.push_str("_");
    out.push_str(stamp);
    out.push_str(".ndjson");
    out
}

/// The name of a record file that is opened now. The time in it is read from
/// the system clock.
pub fn new_file_name(prefix: &str) -> (out: String)
    ensures
        exists|stamp: Seq<char>| out@ == #[trigger] record_file_name(prefix@, stamp),
{
    let stamp = utc_stamp_now();
    file_name_at(prefix, stamp.as_str())
}

// ── Lines ─────────────────────────────────────────────────────────────────

/// The fields of the line of a transfer.
pub open spec fn line_fields(agent_id: Seq<char>, r: RecordView) -> Map<Seq<char>, FieldView> {
    json::no_fields().insert("agent_id"@, FieldView::Text(agent_id)).insert(
        "filename"@,
        FieldView::Text(r.filename),
    ).insert("bucket_id"@, FieldView::Text(r.bucket_id)).insert(
        "bytes_transferred"@,
        FieldView::Number(r.bytes_transferred as int),
    ).insert("file_size_bytes"@, FieldView::Number(r.file_size_bytes as int)).insert(
        "bandwidth_kibps"@,
        FieldView::Number(r.bandwidth_kibps as int),
    ).insert("success"@, FieldView::Flag(r.success)).insert(
        "error_reason"@,
        match r.error_reason {
            Some(e) => FieldView::Text(e),
            None => FieldView::Null,
        },
    ).insert("start_time_ms"@, FieldView::Number(r.start_time_ms as int)).insert(
        "end_time_ms"@,
        FieldView::Number(r.end_time_ms as int),
    ).insert("time_slice"@, FieldView::Number(r.time_slice as int))
}

/// The line of a transfer: a JSON object with the fields of the transfer and the
/// id of its agent, and the end of the line.
pub fn line_of(agent_id: &str, record: &TransferRecord) -> (line: String)
    ensures
        line@ == json::object_text(line_fields(agent_id@, record@)) + "\n"@,
{
    let mut o = json::new_object();
    json::put_text(&mut o, "agent_id", agent_id);
    json::put_text(&mut o, "filename", record.filename.as_str());
    json::put_text(&mut o, "bucket_id", record.bucket_id.as_str());
    json::put_number(&mut o, "bytes_transferred", record.bytes_transferred);
    json::put_number(&mut o, "file_size_bytes", record.file_size_bytes);
    json::put_number(&mut o, "bandwidth_kibps", record.bandwidth_kibps as u64);
    json::put_flag(&mut o, "success", record.success);
    match &record.error_reason {
        Some(e) => {
            json::put_text(&mut o, "error_reason", e.as_str());
        },
        None => {
            json::put_null(&mut o, "error_reason");
        },
    }
    json::put_signed(&mut o, "start_time_ms", record.start_time_ms);
    json::put_signed(&mut o, "end_time_ms", record.end_time_ms);
    json::put_number(&mut o, "time_slice", record.time_slice as u64);
    assert(json::fields(o) == line_fields(agent_id@, record@));
    let mut line = json::write_object(&o);
    line.push_str("\n");
    line
}

// ── Laws ──────────────────────────────────────────────────────────────────

/// Whether no two underscores stand next to each other.
pub open spec fn no_double_underscore(s: Seq<char>) -> bool {
    forall|i: int, j: int| 0 <= i && j == i + 1 && j < s.len() ==> !(#[trigger] s[i] == '_' && #[trigger] s[j] == '_')
}

proof fn lemma_squeezed(s: Seq<char>)
    requires
        forall|i: int| 0 <= i < s.len() ==> is_safe(#[trigger] s[i]),
    ensures
        forall|i: int| 0 <= i < squeezed(s).len() ==> is_safe(#[trigger] squeezed(s)[i]),
        no_double_underscore(squeezed(s)),
        squeezed(s).len() > 0 ==> squeezed(s)[0] != '_',
    decreases s.len(),
{
    if s.len() > 0 {
        lemma_squeezed(s.drop_last());
    }
}

/// A prefix of record files is never empty, has only letters, digits, `-` and
/// `_`, neither starts nor ends with `_`, and has no two underscores in a row.
pub proof fn law_record_prefix_is_safe(s: Seq<char>)
    ensures
        record_prefix(s).len() > 0,
        forall|i: int| 0 <= i < record_prefix(s).len() ==> is_safe(#[trigger] record_prefix(s)[i]),
        record_prefix(s)[0] != '_',
        record_prefix(s).last() != '_',
        no_double_underscore(record_prefix(s)),
{
    reveal_strlit("plan");
    let q = squeezed(cleaned(s));
    lemma_squeezed(cleaned(s));
    if q.len() > 1 && q.last() == '_' {
        assert(!(q[q.len() - 2] == '_' && q[q.len() - 1] == '_'));
    }
}

/// The name of a record file keeps the prefix that was made for a plan.
pub proof fn law_record_file_keeps_prefix(s: Seq<char>, stamp: Seq<char>)
    ensures
        record_file_name(record_prefix(s), stamp) == record_prefix(s) + "_"@ + stamp
            + ".ndjson"@,
{
    let p = record_prefix(s);
    law_record_prefix_is_safe(s);
    assert(cleaned(p) =~= p);
    assert(p.skip(0) =~= p);
    assert(p.take(p.len() as int) =~= p);
}

/// A prefix grows with its text: a character that stands for itself is added, and
/// an underscore only where none stands before it and something does.
pub proof fn law_squeezing_keeps_all_but_spare_underscores(s: Seq<char>, c: char)
    ensures
        squeezed(Seq::empty()) == Seq::<char>::empty(),
        c != '_' ==> squeezed(s.push(c)) == squeezed(s).push(c),
        c == '_' && squeezed(s).len() > 0 && squeezed(s).last() != '_' ==> squeezed(s.push(c))
            == squeezed(s).push(c),
        c == '_' && (squeezed(s).len() == 0 || squeezed(s).last() == '_') ==> squeezed(s.push(c))
            == squeezed(s),
{
    assert(s.push(c).drop_last() =~= s);
}

/// Letters, digits, `-` and `_` stay as they are, and everything else becomes `_`.
pub proof fn law_cleaning_keeps_safe_characters(s: Seq<char>)
    ensures
        cleaned(s).len() == s.len(),
        forall|i: int|
            0 <= i < s.len() ==> {
                let safe = ('0' <= s[i] <= '9') || ('A' <= s[i] <= 'Z') || ('a' <= s[i] <= 'z')
                    || s[i] == '-' || s[i] == '_';
                #[trigger] cleaned(s)[i] == (if safe {
                    s[i]
                } else {
                    '_'
                })
            },
{
}

/// A text that can already be used as it is becomes its own prefix.
pub proof fn law_safe_text_is_its_own_prefix(s: Seq<char>)
    requires
        s.len() > 0,
        forall|i: int| 0 <= i < s.len() ==> is_safe(#[trigger] s[i]),
        s[0] != '_',
        s.last() != '_',
        no_double_underscore(s),
    ensures
        record_prefix(s) == s,
{
    assert(cleaned(s) =~= s);
    lemma_squeezed_is_same(s, s.len() as int);
    assert(s.take(s.len() as int) =~= s);
}

proof fn lemma_squeezed_is_same(s: Seq<char>, n: int)
    requires
        0 <= n <= s.len(),
        s.len() > 0,
        s[0] != '_',
        no_double_underscore(s),
    ensures
        squeezed(s.take(n)) == s.take(n),
    decreases n,
{
    if n > 0 {
        lemma_squeezed_is_same(s, n - 1);
        let t = s.take(n);
        assert(t.drop_last() =~= s.take(n - 1));
        if n > 1 {
            assert(!(s[n - 2] == '_' && s[n - 1] == '_'));
            assert(s.take(n - 1).last() == s[n - 2]);
        }
        assert(s.take(n - 1).push(s[n - 1]) =~= t);
    } else {
        assert(s.take(n) =~= Seq::<char>::empty());
    }
}

/// Only underscores are trimmed, and all of them at both ends.
pub proof fn law_trimming_takes_underscores_only(s: Seq<char>)
    ensures
        ({
            let t = trim_underscores(s);
            exists|i: int, j: int|
                #![trigger s.subrange(i, j)]
                {
                    &&& 0 <= i <= j <= s.len()
                    &&& t == s.subrange(i, j)
                    &&& forall|k: int| 0 <= k < i || j <= k < s.len() ==> #[trigger] s[k] == '_'
                    &&& t.len() > 0 ==> t[0] != '_' && t.last() != '_'
                }
        }),
{
    lemma_leading_run(s);
    let i = leading_underscores(s) as int;
    let u = s.skip(i);
    lemma_trailing_run(u);
    let j = s.len() - trailing_underscores(u);
    let t = trim_underscores(s);
    assert(t =~= s.subrange(i, j));
    assert forall|k: int| 0 <= k < i || j <= k < s.len() implies #[trigger] s[k] == '_' by {
        if j <= k {
            assert(u[k - i] == s[k]);
        }
    }
    if t.len() > 0 {
        assert(t[0] == s[i]);
        assert(t.last() == u[u.len() - trailing_underscores(u) - 1]);
    }
}

proof fn lemma_leading_run(s: Seq<char>)
    ensures
        leading_underscores(s) <= s.len(),
        forall|k: int| 0 <= k < leading_underscores(s) ==> #[trigger] s[k] == '_',
        leading_underscores(s) < s.len() ==> s[leading_underscores(s) as int] != '_',
    decreases s.len(),
{
    if s.len() > 0 && s[0] == '_' {
        let r = s.skip(1);
        lemma_leading_run(r);
        assert forall|k: int| 0 <= k < leading_underscores(s) implies #[trigger] s[k] == '_' by {
            if k > 0 {
                assert(r[k - 1] == s[k]);
            }
        }
    }
}

proof fn lemma_trailing_run(s: Seq<char>)
    ensures
        trailing_underscores(s) <= s.len(),
        forall|k: int| s.len() - trailing_underscores(s) <= k < s.len() ==> #[trigger] s[k] == '_',
        trailing_underscores(s) < s.len() ==> s[s.len() - trailing_underscores(s) - 1] != '_',
    decreases s.len(),
{
    if s.len() > 0 && s.last() == '_' {
        let d = s.drop_last();
        lemma_trailing_run(d);
        assert forall|k: int| s.len() - trailing_underscores(s) <= k < s.len() implies #[trigger] s[k]
            == '_' by {
            if k < d.len() {
                assert(d[k] == s[k]);
            }
        }
        if trailing_underscores(s) < s.len() {
            assert(d[d.len() - trailing_underscores(d) - 1] == s[s.len() - trailing_underscores(s)
                - 1]);
        }
    }
}

/// The line of a transfer tells two transfers apart in every field.
pub proof fn law_line_has_all_fields(
    a1: Seq<char>,
    r1: RecordView,
    a2: Seq<char>,
    r2: RecordView,
)
    requires
        line_fields(a1, r1) == line_fields(a2, r2),
    ensures
        a1 == a2,
        r1 == r2,
{
    reveal_strlit("agent_id");
    reveal_strlit("filename");
    reveal_strlit("bucket_id");
    reveal_strlit("bytes_transferred");
    reveal_strlit("file_size_bytes");
    reveal_strlit("bandwidth_kibps");
    reveal_strlit("success");
    reveal_strlit("error_reason");
    reveal_strlit("start_time_ms");
    reveal_strlit("end_time_ms");
    reveal_strlit("time_slice");
    let x = line_fields(a1, r1);
    let y = line_fields(a2, r2);
    lemma_line_fields(a1, r1);
    lemma_line_fields(a2, r2);
    assert(x["error_reason"@] == y["error_reason"@]);
}

/// Every field of a transfer stands under its own name.
pub proof fn lemma_line_fields(agent: Seq<char>, r: RecordView)
    ensures
        ({
            let f = line_fields(agent, r);
            &&& f["agent_id"@] == FieldView::Text(agent)
            &&& f["filename"@] == FieldView::Text(r.filename)
            &&& f["bucket_id"@] == FieldView::Text(r.bucket_id)
            &&& f["bytes_transferred"@] == FieldView::Number(r.bytes_transferred as int)
            &&& f["file_size_bytes"@] == FieldView::Number(r.file_size_bytes as int)
            &&& f["bandwidth_kibps"@] == FieldView::Number(r.bandwidth_kibps as int)
            &&& f["success"@] == FieldView::Flag(r.success)
            &&& r.error_reason matches Some(e) ==> f["error_reason"@] == FieldView::Text(e)
            &&& r.error_reason is None ==> f["error_reason"@] == FieldView::Null
            &&& f["start_time_ms"@] == FieldView::Number(r.start_time_ms as int)
            &&& f["end_time_ms"@] == FieldView::Number(r.end_time_ms as int)
            &&& f["time_slice"@] == FieldView::Number(r.time_slice as int)
        }),
{
    reveal_strlit("agent_id");
    reveal_strlit("filename");
    reveal_strlit("bucket_id");
    reveal_strlit("bytes_transferred");
    reveal_strlit("file_size_bytes");
    reveal_strlit("bandwidth_kibps");
    reveal_strlit("success");
    reveal_strlit("error_reason");
    reveal_strlit("start_time_ms");
    reveal_strlit("end_time_ms");
    reveal_strlit("time_slice");
    assert("agent_id"@.len() == 8 && "filename"@.len() == 8 && "bucket_id"@.len() == 9);
    assert("bytes_transferred"@.len() == 17 && "file_size_bytes"@.len() == 15);
    assert("bandwidth_kibps"@.len() == 15 && "success"@.len() == 7);
    assert("error_reason"@.len() == 12 && "start_time_ms"@.len() == 13);
    assert("end_time_ms"@.len() == 11 && "time_slice"@.len() == 10);
    assert("agent_id"@[0] == 'a' && "filename"@[0] == 'f');
    assert("file_size_bytes"@[0] == 'f' && "bandwidth_kibps"@[0] == 'b');
}

} // verus!
