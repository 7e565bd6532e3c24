use crate::id::{law_uuid_text_roundtrip, parse_uuid, uuid_digits, uuid_text, TaskId};
use crate::status::TaskStatus;
use crate::task::{Task, TaskView};
use crate::text::{all_digits, dec_text, digit_value, lemma_dec_text, push_char};
use crate::timestamp::{
    dec_then, law_timestamp_text_roundtrip, lemma_parse_timestamp_wf, parse_timestamp,
    timestamp_text, Timestamp,
};
use vstd::prelude::*;

verus! {

/// Why a stored record could not be read.
#[derive(Clone, Copy, Debug, PartialEq, Eq, Structural)]
pub enum RecordError {
    /// The metadata block is missing, or one of its fields does not parse.
    MalformedRecord,
}

/// How one character of a name is written between double quotes.
pub open spec fn escape_char(c: char) -> Seq<char> {
    if c == '"' {
        seq!['\\', '"']
    } else if c == '\\' {
        seq!['\\', '\\']
    } else if c == '\n' {
        seq!['\\', 'n']
    } else if c == '\r' {
        seq!['\\', 'r']
    } else {
        seq![c]
    }
}

/// A name with every character escaped.
pub open spec fn escaped(s: Seq<char>) -> Seq<char>
    decreases s.len(),
{
    if s.len() == 0 {
        seq![]
    } else {
        escaped(s.drop_last()) + escape_char(s.last())
    }
}

/// A name as a double-quoted scalar.
pub open spec fn quoted(s: Seq<char>) -> Seq<char> {
    seq!['"'] + escaped(s) + seq!['"']
}

/// The character that follows a backslash stands for, if it is an escape.
pub open spec fn escape_value(c: char) -> Option<char> {
    if c == '"' {
        Some('"')
    } else if c == '\\' {
        Some('\\')
    } else if c == 'n' {
        Some('\n')
    } else if c == 'r' {
        Some('\r')
    } else if c == 't' {
        Some('\t')
    } else if c == '0' {
        Some('\0')
    } else if c == '/' {
        Some('/')
    } else if c == ' ' {
        Some(' ')
    } else {
        None
    }
}

/// `p` put before the text in `o`, if there is one.
pub open spec fn prepend(p: Seq<char>, o: Option<Seq<char>>) -> Option<Seq<char>> {
    match o {
        Some(r) => Some(p + r),
        None => None,
    }
}

/// The characters that the inside of a double-quoted scalar stands for; `None` on a
/// bare double quote or an unknown escape.
pub open spec fn unescaped(s: Seq<char>) -> Option<Seq<char>>
    decreases s.len(),
{
    if s.len() == 0 {
        Some(seq![])
    } else if s[0] == '"' {
        None
    } else if s[0] == '\\' {
        if s.len() >= 2 && escape_value(s[1]) is Some {
            prepend(seq![escape_value(s[1]).unwrap()], unescaped(s.skip(2)))
        } else {
            None
        }
    } else {
        prepend(seq![s[0]], unescaped(s.drop_first()))
    }
}

/// The characters that the inside of a single-quoted scalar stands for: a doubled
/// single quote is one; `None` on a single quote alone.
pub open spec fn unquoted_single(s: Seq<char>) -> Option<Seq<char>>
    decreases s.len(),
{
    if s.len() == 0 {
        Some(seq![])
    } else if s[0] == '\'' {
        if s.len() >= 2 && s[1] == '\'' {
            prepend(seq!['\''], unquoted_single(s.skip(2)))
        } else {
            None
        }
    } else {
        prepend(seq![s[0]], unquoted_single(s.drop_first()))
    }
}

/// The name a value text spells: a double-quoted scalar, a single-quoted one, or a plain
/// one taken as it stands (not empty, not starting with a quote).
pub open spec fn parse_name(v: Seq<char>) -> Option<Seq<char>> {
    if v.len() >= 2 && v[0] == '"' && v.last() == '"' {
        unescaped(v.subrange(1, v.len() - 1))
    } else if v.len() >= 2 && v[0] == '\'' && v.last() == '\'' {
        unquoted_single(v.subrange(1, v.len() - 1))
    } else if v.len() >= 1 && v[0] != '"' && v[0] != '\'' {
        Some(v)
    } else {
        None
    }
}

/// The line that opens and closes the metadata block.
pub open spec fn fence() -> Seq<char> {
    seq!['-', '-', '-']
}

pub open spec fn id_key() -> Seq<char> {
    seq!['i', 'd', ':', ' ']
}

pub open spec fn name_key() -> Seq<char> {
    seq!['n', 'a', 'm', 'e', ':', ' ']
}

pub open spec fn created_key() -> Seq<char> {
    seq!['c', 'r', 'e', 'a', 't', 'e', 'd', '_', 'a', 't', ':', ' ']
}

pub open spec fn updated_key() -> Seq<char> {
    seq!['u', 'p', 'd', 'a', 't', 'e', 'd', '_', 'a', 't', ':', ' ']
}

/// The stored text of a task: the metadata block (identifier, name and the two
/// timestamps, one `key: value` line each, between two fence lines) and an empty body.
/// The status is not stored: the directory that holds the file gives it.
pub open spec fn record_text(t: TaskView) -> Seq<char> {
    fence() + seq!['\n'] + (id_key() + uuid_text(t.id) + (seq!['\n'] + (name_key() + quoted(t.name)
        + (seq!['\n'] + (created_key() + timestamp_text(t.created_at) + (seq!['\n'] + (updated_key()
        + timestamp_text(t.updated_at) + (seq!['\n'] + (fence() + seq!['\n'])))))))))
}

/// The number of characters before the first line break of `s` (all of them if none).
pub open spec fn line_len(s: Seq<char>) -> nat
    decreases s.len(),
{
    if s.len() > 0 && s[0] != '\n' {
        1 + line_len(s.drop_first())
    } else {
        0
    }
}

/// The first line of `s` and what follows its line break; `None` if `s` has no line break.
pub open spec fn split_line(s: Seq<char>) -> Option<(Seq<char>, Seq<char>)> {
    let k = line_len(s);
    if k < s.len() {
        Some((s.take(k as int), s.skip((k + 1) as int)))
    } else {
        None
    }
}

/// The value of the first line of `s` when that line starts with `key`, and what
/// follows the line.
#[verifier::opaque]
pub open spec fn keyed_line(s: Seq<char>, key: Seq<char>) -> Option<(Seq<char>, Seq<char>)> {
    match split_line(s) {
        Some((line, rest)) => if key.is_prefix_of(line) {
            Some((line.skip(key.len() as int), rest))
        } else {
            None
        },
        None => None,
    }
}

/// The four field values of a stored text's metadata block (identifier, name, created,
/// updated), if the text opens with a fence line, has the four keyed lines in that
/// order, and a fence after them.
pub open spec fn header(s: Seq<char>) -> Option<(Seq<char>, Seq<char>, Seq<char>, Seq<char>)> {
    let l1 = keyed_line(s.skip(4), id_key());
    let l2 = keyed_line(l1.unwrap().1, name_key());
    let l3 = keyed_line(l2.unwrap().1, created_key());
    let l4 = keyed_line(l3.unwrap().1, updated_key());
    if (fence() + seq!['\n']).is_prefix_of(s) && l1 is Some && l2 is Some && l3 is Some
        && l4 is Some && fence().is_prefix_of(l4.unwrap().1) {
        Some((l1.unwrap().0, l2.unwrap().0, l3.unwrap().0, l4.unwrap().0))
    } else {
        None
    }
}

/// What follows the keyed lines of a stored text, starting with its closing fence,
/// when the text has a metadata block.
pub open spec fn after_keyed_lines(s: Seq<char>) -> Seq<char> {
    let l1 = keyed_line(s.skip(4), id_key());
    let l2 = keyed_line(l1.unwrap().1, name_key());
    let l3 = keyed_line(l2.unwrap().1, created_key());
    let l4 = keyed_line(l3.unwrap().1, updated_key());
    l4.unwrap().1
}

/// The body of a stored text: what follows the closing fence (and the line break right
/// after it); the whole text when it has no metadata block.
pub open spec fn body_of(s: Seq<char>) -> Seq<char> {
    if header(s) is Some {
        let rest = after_keyed_lines(s).skip(3);
        if rest.len() > 0 && rest[0] == '\n' {
            rest.skip(1)
        } else {
            rest
        }
    } else {
        s
    }
}

/// The task a stored text describes, with the given status; `None` if the text has no
/// well-formed metadata block. Whatever follows the closing fence is the body.
pub open spec fn parse_record(s: Seq<char>, status: TaskStatus) -> Option<TaskView> {
    match header(s) {
        Some((a, b, c, d)) => {
            let id = parse_uuid(a);
            let name = parse_name(b);
            let created = parse_timestamp(c);
            let updated = parse_timestamp(d);
            if id is Some && name is Some && created is Some && updated is Some {
                Some(
                    TaskView {
                        id: id.unwrap(),
                        name: name.unwrap(),
                        status,
                        created_at: created.unwrap(),
                        updated_at: updated.unwrap(),
                    },
                )
            } else {
                None
            }
        },
        None => None,
    }
}

/// `s` holds no line break.
pub open spec fn no_newline(s: Seq<char>) -> bool {
    forall|i: int| 0 <= i < s.len() ==> #[trigger] s[i] != '\n'
}

/// Joining two texts without line breaks gives one without.
proof fn lemma_no_newline_concat(a: Seq<char>, b: Seq<char>)
    requires
        no_newline(a),
        no_newline(b),
    ensures
        no_newline(a + b),
{
    assert forall|i: int| 0 <= i < (a + b).len() implies #[trigger] (a + b)[i] != '\n' by {
        if i < a.len() {
            assert((a + b)[i] == a[i]);
        } else {
            assert((a + b)[i] == b[i - a.len()]);
        }
    }
}

/// Digits hold no line break.
proof fn lemma_digits_no_newline(s: Seq<char>, b: nat)
    requires
        all_digits(s, b),
        b <= 16,
    ensures
        no_newline(s),
{
    assert forall|i: int| 0 <= i < s.len() implies #[trigger] s[i] != '\n' by {
        assert(digit_value(s[i]) < b);
    }
}

/// Reading back an escaped character gives it, whatever follows.
proof fn lemma_unescape_char(c: char, rest: Seq<char>)
    ensures
        unescaped(escape_char(c) + rest) == prepend(seq![c], unescaped(rest)),
{
    let s = escape_char(c) + rest;
    if c == '"' || c == '\\' || c == '\n' || c == '\r' {
        assert(s[0] == '\\');
        assert(s.skip(2) == rest);
    } else {
        assert(s[0] == c);
        assert(s.drop_first() == rest);
    }
}

/// Reading back an escaped name gives it, whatever follows.
proof fn lemma_unescape_escaped(s: Seq<char>, rest: Seq<char>)
    ensures
        unescaped(escaped(s) + rest) == prepend(s, unescaped(rest)),
    decreases s.len(),
{
    if s.len() == 0 {
        assert(escaped(s) + rest == rest);
        match unescaped(rest) {
            Some(r) => assert(s + r == r),
            None => {},
        }
    } else {
        let d = s.drop_last();
        let c = s.last();
        assert(escaped(s) + rest == escaped(d) + (escape_char(c) + rest));
        lemma_unescape_escaped(d, escape_char(c) + rest);
        lemma_unescape_char(c, rest);
        assert(d + seq![c] == s);
        match unescaped(rest) {
            Some(r) => assert(d + (seq![c] + r) == s + r),
            None => {},
        }
    }
}

/// Escaped text holds no line break.
proof fn lemma_escaped_no_newline(s: Seq<char>)
    ensures
        no_newline(escaped(s)),
    decreases s.len(),
{
    if s.len() > 0 {
        lemma_escaped_no_newline(s.drop_last());
        let e = escape_char(s.last());
        assert(no_newline(e));
        lemma_no_newline_concat(escaped(s.drop_last()), e);
    }
}

/// Reading a quoted name gives the name back; the quoted name holds no line break.
pub proof fn law_name_roundtrip(s: Seq<char>)
    ensures
        parse_name(quoted(s)) == Some(s),
        no_newline(quoted(s)),
{
    let q = quoted(s);
    assert(q.subrange(1, q.len() - 1) == escaped(s));
    assert(q[0] == '"');
    assert(q.last() == '"');
    lemma_unescape_escaped(s, seq![]);
    assert(escaped(s) + Seq::<char>::empty() == escaped(s));
    assert(s + Seq::<char>::empty() == s);
    lemma_escaped_no_newline(s);
    lemma_no_newline_concat(seq!['"'], escaped(s));
    lemma_no_newline_concat(seq!['"'] + escaped(s), seq!['"']);
}

/// The line of a text without line breaks, ended by one, is that text.
proof fn lemma_line_len(a: Seq<char>, rest: Seq<char>)
    requires
        no_newline(a),
    ensures
        line_len(a + (seq!['\n'] + rest)) == a.len(),
    decreases a.len(),
{
    let s = a + (seq!['\n'] + rest);
    if a.len() == 0 {
        assert(s == seq!['\n'] + rest);
        assert(s[0] == '\n');
    } else {
        assert(s[0] == a[0]);
        assert(s.drop_first() == a.drop_first() + (seq!['\n'] + rest));
        assert(no_newline(a.drop_first())) by {
            assert forall|i: int| 0 <= i < a.drop_first().len() implies #[trigger] a.drop_first()[i]
                != '\n' by {
                assert(a.drop_first()[i] == a[i + 1]);
            }
        }
        lemma_line_len(a.drop_first(), rest);
    }
}

/// A keyed line reads back as its value and what follows it.
proof fn lemma_keyed_line(key: Seq<char>, v: Seq<char>, rest: Seq<char>)
    requires
        no_newline(key),
        no_newline(v),
    ensures
        keyed_line(key + v + (seq!['\n'] + rest), key) == Some((v, rest)),
{
    reveal(keyed_line);
    let a = key + v;
    lemma_no_newline_concat(key, v);
    lemma_line_len(a, rest);
    let s = a + (seq!['\n'] + rest);
    assert(s.take(a.len() as int) == a);
    assert(s.skip((a.len() + 1) as int) == rest);
    assert(a.subrange(0, key.len() as int) == key);
    assert(a.skip(key.len() as int) == v);
}

/// An identifier's text holds no line break.
proof fn lemma_uuid_no_newline(id: TaskId)
    ensures
        no_newline(uuid_text(id)),
{
    law_uuid_text_roundtrip(id);
    let t = uuid_text(id);
    let d = uuid_digits(t);
    assert forall|i: int| 0 <= i < t.len() implies #[trigger] t[i] != '\n' by {
        if i < 8 {
            assert(t[i] == d[i]);
        } else if 8 < i < 13 {
            assert(t[i] == d[i - 1]);
        } else if 13 < i < 18 {
            assert(t[i] == d[i - 2]);
        } else if 18 < i < 23 {
            assert(t[i] == d[i - 3]);
        } else if 23 < i {
            assert(t[i] == d[i - 4]);
        }
        if i != 8 && i != 13 && i != 18 && i != 23 {
            assert(digit_value(t[i]) < 16);
        }
    }
}

/// A field, its separator and a text without line breaks hold none.
proof fn lemma_dec_then_no_newline(v: nat, w: nat, sep: char, rest: Seq<char>)
    requires
        sep != '\n',
        no_newline(rest),
    ensures
        no_newline(dec_then(v, w, sep, rest)),
{
    lemma_dec_text(v, w);
    lemma_digits_no_newline(dec_text(v, w), 10);
    lemma_no_newline_concat(seq![sep], rest);
    lemma_no_newline_concat(dec_text(v, w), seq![sep] + rest);
}

/// A timestamp's text holds no line break.
proof fn lemma_timestamp_no_newline(t: Timestamp)
    ensures
        no_newline(timestamp_text(t)),
{
    let nd = dec_text(t.nanosecond as nat, 9);
    lemma_dec_text(t.nanosecond as nat, 9);
    lemma_digits_no_newline(nd, 10);
    lemma_no_newline_concat(nd, seq!['Z']);
    let r5 = dec_then(t.second as nat, 2, '.', nd + seq!['Z']);
    lemma_dec_then_no_newline(t.second as nat, 2, '.', nd + seq!['Z']);
    let r4 = dec_then(t.minute as nat, 2, ':', r5);
    lemma_dec_then_no_newline(t.minute as nat, 2, ':', r5);
    let r3 = dec_then(t.hour as nat, 2, ':', r4);
    lemma_dec_then_no_newline(t.hour as nat, 2, ':', r4);
    let r2 = dec_then(t.day as nat, 2, 'T', r3);
    lemma_dec_then_no_newline(t.day as nat, 2, 'T', r3);
    let r1 = dec_then(t.month as nat, 2, '-', r2);
    lemma_dec_then_no_newline(t.month as nat, 2, '-', r2);
    lemma_dec_then_no_newline(t.year as nat, 4, '-', r1);
}

/// A stored text followed by any body reads back as its task, and what follows its
/// keyed lines is the closing fence and then the body.
#[verifier::rlimit(60)]
proof fn lemma_record_with_body(t: TaskView, body: Seq<char>)
    requires
        t.wf(),
    ensures
        parse_record(record_text(t) + body, t.status) == Some(t),
        after_keyed_lines(record_text(t) + body) == fence() + seq!['\n'] + body,
{
    let tail = fence() + seq!['\n'] + body;
    let r4 = updated_key() + timestamp_text(t.updated_at) + (seq!['\n'] + tail);
    let r3 = created_key() + timestamp_text(t.created_at) + (seq!['\n'] + r4);
    let r2 = name_key() + quoted(t.name) + (seq!['\n'] + r3);
    let r1 = id_key() + uuid_text(t.id) + (seq!['\n'] + r2);
    let s = record_text(t) + body;
    assert(s == fence() + seq!['\n'] + r1);
    assert(s.skip(4) == r1);
    assert((fence() + seq!['\n']).is_prefix_of(s)) by {
        assert(s.subrange(0, 4) == fence() + seq!['\n']);
    }
    assert(no_newline(id_key()));
    assert(no_newline(name_key()));
    assert(no_newline(created_key()));
    assert(no_newline(updated_key()));
    lemma_uuid_no_newline(t.id);
    law_name_roundtrip(t.name);
    lemma_timestamp_no_newline(t.created_at);
    lemma_timestamp_no_newline(t.updated_at);
    lemma_keyed_line(id_key(), uuid_text(t.id), r2);
    lemma_keyed_line(name_key(), quoted(t.name), r3);
    lemma_keyed_line(created_key(), timestamp_text(t.created_at), r4);
    lemma_keyed_line(updated_key(), timestamp_text(t.updated_at), tail);
    assert(fence().is_prefix_of(tail)) by {
        assert(tail.subrange(0, 3) == fence());
    }
    law_uuid_text_roundtrip(t.id);
    law_timestamp_text_roundtrip(t.created_at);
    law_timestamp_text_roundtrip(t.updated_at);
}

/// Decoding the stored text of a valid task, with the task's own status, gives the
/// task back: identifier, name, status and both timestamps. A body below the metadata
/// block changes nothing of that.
pub proof fn law_record_roundtrip(t: TaskView, body: Seq<char>)
    requires
        t.wf(),
    ensures
        parse_record(record_text(t), t.status) == Some(t),
        parse_record(record_text(t) + body, t.status) == Some(t),
{
    lemma_record_with_body(t, body);
    lemma_record_with_body(t, seq![]);
    assert(record_text(t) + Seq::<char>::empty() == record_text(t));
}

/// Whether `key` starts the characters of `s` from `from` to `to`.
fn has_prefix(s: &str, from: usize, to: usize, key: &str) -> (r: bool)
    requires
        from <= to <= s@.len(),
    ensures
        r == key@.is_prefix_of(s@.subrange(from as int, to as int)),
{
    let k = key.unicode_len();
    if k > to - from {
        return false;
    }
    let mut i: usize = 0;
    while i < k
        invariant
            k == key@.len(),
            k <= to - from,
            from <= to <= s@.len(),
            i <= k,
            forall|j: int| 0 <= j < i ==> key@[j] == #[trigger] s@[from + j],
        decreases k - i,
    {
        if key.get_char(i) != s.get_char(from + i) {
            proof {
                assert(s@.subrange(from as int, to as int)[i as int] == s@[from + i]);
            }
            return false;
        }
        i += 1;
    }
    proof {
        let sub = s@.subrange(from as int, to as int).subrange(0, k as int);
        assert forall|j: int| 0 <= j < k implies key@[j] == sub[j] by {
            assert(sub[j] == s@[from + j]);
        }
        assert(key@ =~= sub);
    }
    true
}

/// The position of the line break that ends the line starting at `pos`.
fn line_end(s: &str, pos: usize) -> (r: Option<usize>)
    requires
        pos <= s@.len(),
    ensures
        match split_line(s@.skip(pos as int)) {
            Some((line, rest)) => r is Some && pos <= r.unwrap() < s@.len() && line == s@.subrange(
                pos as int,
                r.unwrap() as int,
            ) && rest == s@.skip(r.unwrap() + 1),
            None => r is None,
        },
{
    let n = s.unicode_len();
    let mut j: usize = pos;
    while j < n && s.get_char(j) != '\n'
        invariant
            n == s@.len(),
            pos <= j <= n,
            line_len(s@.skip(pos as int)) == (j - pos) + line_len(s@.skip(j as int)),
        decreases n - j,
    {
        proof {
            assert(s@.skip(j as int)[0] == s@[j as int]);
            assert(s@.skip(j as int).drop_first() == s@.skip(j + 1));
        }
        j += 1;
    }
    if j == n {
        proof {
            assert(s@.skip(j as int).len() == 0);
        }
        return None;
    }
    proof {
        assert(s@.skip(j as int)[0] == s@[j as int]);
        assert(s@.skip(pos as int).take(j - pos) == s@.subrange(pos as int, j as int));
        assert(s@.skip(pos as int).skip(j - pos + 1) == s@.skip(j + 1));
    }
    Some(j)
}

/// Finds the line at `pos` that starts with `key`: returns where its value starts and
/// where the line ends.
fn take_keyed_line(s: &str, pos: usize, key: &str) -> (r: Option<(usize, usize)>)
    requires
        pos <= s@.len(),
    ensures
        match keyed_line(s@.skip(pos as int), key@) {
            Some((v, rest)) => r is Some && r.unwrap().0 <= r.unwrap().1 < s@.len() && s@.subrange(
                r.unwrap().0 as int,
                r.unwrap().1 as int,
            ) == v && s@.skip(r.unwrap().1 + 1) == rest,
            None => r is None,
        },
{
    reveal(keyed_line);
    let e = match line_end(s, pos) {
        Some(e) => e,
        None => return None,
    };
    if !has_prefix(s, pos, e, key) {
        return None;
    }
    let a = pos + key.unicode_len();
    proof {
        assert(s@.subrange(pos as int, e as int).skip(key@.len() as int) == s@.subrange(
            a as int,
            e as int,
        ));
    }
    Some((a, e))
}

/// The character an escape letter stands for.
fn escape_value_of(c: char) -> (r: Option<char>)
    ensures
        r == escape_value(c),
{
    if c == '"' {
        Some('"')
    } else if c == '\\' {
        Some('\\')
    } else if c == 'n' {
        Some('\n')
    } else if c == 'r' {
        Some('\r')
    } else if c == 't' {
        Some('\t')
    } else if c == '0' {
        Some('\0')
    } else if c == '/' {
        Some('/')
    } else if c == ' ' {
        Some(' ')
    } else {
        None
    }
}

/// Reads the inside of a double-quoted scalar.
fn unescape(s: &str) -> (r: Option<String>)
    ensures
        match unescaped(s@) {
            Some(x) => r is Some && r.unwrap()@ == x,
            None => r is None,
        },
{
    let n = s.unicode_len();
    let mut out = String::new();
    let mut i: usize = 0;
    proof {
        assert(s@.skip(0) == s@);
        match unescaped(s@) {
            Some(x) => assert(Seq::<char>::empty() + x == x),
            None => {},
        }
    }
    while i < n
        invariant
            n == s@.len(),
            i <= n,
            unescaped(s@) == prepend(out@, unescaped(s@.skip(i as int))),
        decreases n - i,
    {
        let c = s.get_char(i);
        proof {
            assert(s@.skip(i as int)[0] == c);
        }
        if c == '"' {
            return None;
        }
        if c == '\\' {
            if i + 1 >= n {
                return None;
            }
            let d = s.get_char(i + 1);
            proof {
                assert(s@.skip(i as int)[1] == d);
            }
            let e = match escape_value_of(d) {
                Some(e) => e,
                None => return None,
            };
            proof {
                assert(s@.skip(i as int).skip(2) == s@.skip(i + 2));
                match unescaped(s@.skip(i + 2)) {
                    Some(x) => assert(out@ + (seq![e] + x) == out@.push(e) + x),
                    None => {},
                }
            }
            push_char(&mut out, e);
            i += 2;
        } else {
            proof {
                assert(s@.skip(i as int).drop_first() == s@.skip(i + 1));
                match unescaped(s@.skip(i + 1)) {
                    Some(x) => assert(out@ + (seq![c] + x) == out@.push(c) + x),
                    None => {},
                }
            }
            push_char(&mut out, c);
            i += 1;
        }
    }
    proof {
        assert(s@.skip(i as int).len() == 0);
        assert(out@ + Seq::<char>::empty() == out@);
    }
    Some(out)
}

/// Reads the inside of a single-quoted scalar.
fn unquote_single(s: &str) -> (r: Option<String>)
    ensures
        match unquoted_single(s@) {
            Some(x) => r is Some && r.unwrap()@ == x,
            None => r is None,
        },
{
    let n = s.unicode_len();
    let mut out = String::new();
    let mut i: usize = 0;
    proof {
        assert(s@.skip(0) == s@);
        match unquoted_single(s@) {
            Some(x) => assert(Seq::<char>::empty() + x == x),
            None => {},
        }
    }
    while i < n
        invariant
            n == s@.len(),
            i <= n,
            unquoted_single(s@) == prepend(out@, unquoted_single(s@.skip(i as int))),
        decreases n - i,
    {
        let c = s.get_char(i);
        proof {
            assert(s@.skip(i as int)[0] == c);
        }
        if c == '\'' {
            if i + 1 >= n || s.get_char(i + 1) != '\'' {
                proof {
                    if i + 1 < n {
                        assert(s@.skip(i as int)[1] == s@[i + 1]);
                    }
                }
                return None;
            }
            proof {
                assert(s@.skip(i as int)[1] == s@[i + 1]);
                assert(s@.skip(i as int).skip(2) == s@.skip(i + 2));
                match unquoted_single(s@.skip(i + 2)) {
                    Some(x) => assert(out@ + (seq!['\''] + x) == out@.push('\'') + x),
                    None => {},
                }
            }
            push_char(&mut out, '\'');
            i += 2;
        } else {
            proof {
                assert(s@.skip(i as int).drop_first() == s@.skip(i + 1));
                match unquoted_single(s@.skip(i + 1)) {
                    Some(x) => assert(out@ + (seq![c] + x) == out@.push(c) + x),
                    None => {},
                }
            }
            push_char(&mut out, c);
            i += 1;
        }
    }
    proof {
        assert(s@.skip(i as int).len() == 0);
        assert(out@ + Seq::<char>::empty() == out@);
    }
    Some(out)
}

/// Reads a name value, as `parse_name` gives it.
fn read_name(v: &str) -> (r: Option<String>)
    ensures
        match parse_name(v@) {
            Some(x) => r is Some && r.unwrap()@ == x,
            None => r is None,
        },
{
    let n = v.unicode_len();
    if n >= 2 && v.get_char(0) == '"' && v.get_char(n - 1) == '"' {
        unescape(v.substring_char(1, n - 1))
    } else if n >= 2 && v.get_char(0) == '\'' && v.get_char(n - 1) == '\'' {
        unquote_single(v.substring_char(1, n - 1))
    } else if n >= 1 && v.get_char(0) != '"' && v.get_char(0) != '\'' {
        Some(v.to_owned())
    } else {
        None
    }
}

/// Appends `name` as a double-quoted scalar.
fn push_quoted(out: &mut String, name: &str)
    ensures
        final(out)@ == old(out)@ + quoted(name@),
{
    push_char(out, '"');
    let n = name.unicode_len();
    let mut i: usize = 0;
    proof {
        assert(name@.take(0) == Seq::<char>::empty());
        assert(old(out)@.push('"') == old(out)@ + seq!['"'] + escaped(name@.take(0)));
    }
    while i < n
        invariant
            n == name@.len(),
            i <= n,
            out@ == old(out)@ + seq!['"'] + escaped(name@.take(i as int)),
        decreases n - i,
    {
        let c = name.get_char(i);
        let ghost before = out@;
        if c == '"' {
            push_char(out, '\\');
            push_char(out, '"');
        } else if c == '\\' {
            push_char(out, '\\');
            push_char(out, '\\');
        } else if c == '\n' {
            push_char(out, '\\');
            push_char(out, 'n');
        } else if c == '\r' {
            push_char(out, '\\');
            push_char(out, 'r');
        } else {
            push_char(out, c);
        }
        proof {
            assert(out@ == before + escape_char(c));
            assert(name@.take(i + 1).drop_last() == name@.take(i as int));
            assert(name@.take(i + 1).last() == c);
        }
        i += 1;
    }
    push_char(out, '"');
    proof {
        assert(name@.take(n as int) == name@);
    }
}

/// The stored text of a task, as `record_text` gives it.
pub fn encode(task: &Task) -> (r: String)
    ensures
        r@ == record_text(task@),
{
    let mut r = String::new();
    r.append("---\n");
    r.append("id: ");
    r.append(task.id.to_text().as_str());
    push_char(&mut r, '\n');
    r.append("name: ");
    push_quoted(&mut r, task.name.as_str());
    push_char(&mut r, '\n');
    r.append("created_at: ");
    r.append(task.created_at.to_text().as_str());
    push_char(&mut r, '\n');
    r.append("updated_at: ");
    r.append(task.updated_at.to_text().as_str());
    push_char(&mut r, '\n');
    r.append("---\n");
    proof {
        reveal_strlit("---\n");
        reveal_strlit("id: ");
        reveal_strlit("name: ");
        reveal_strlit("created_at: ");
        reveal_strlit("updated_at: ");
        assert(r@ == record_text(task@));
    }
    r
}

/// Finds the metadata block of a stored text: the start and end of each of the four
/// field values, as `header` gives them.
#[verifier::rlimit(100)]
fn read_header(text: &str) -> (r: Option<(usize, usize, usize, usize, usize, usize, usize, usize)>)
    ensures
        match header(text@) {
            Some((a, b, c, d)) => r is Some && {
                let (a1, e1, a2, e2, a3, e3, a4, e4) = r.unwrap();
                &&& a1 <= e1 <= text@.len() && a2 <= e2 <= text@.len()
                &&& a3 <= e3 <= text@.len() && a4 <= e4 <= text@.len()
                &&& text@.subrange(a1 as int, e1 as int) == a
                &&& text@.subrange(a2 as int, e2 as int) == b
                &&& text@.subrange(a3 as int, e3 as int) == c
                &&& text@.subrange(a4 as int, e4 as int) == d
                &&& e4 < text@.len() && text@.skip(e4 + 1) == after_keyed_lines(text@)
            },
            None => r is None,
        },
{
    proof {
        reveal_strlit("---\n");
        reveal_strlit("---");
        reveal_strlit("id: ");
        reveal_strlit("name: ");
        reveal_strlit("created_at: ");
        reveal_strlit("updated_at: ");
        assert("---\n"@ =~= fence() + seq!['\n']);
        assert("---"@ =~= fence());
        assert("id: "@ =~= id_key());
        assert("name: "@ =~= name_key());
        assert("created_at: "@ =~= created_key());
        assert("updated_at: "@ =~= updated_key());
        assert(text@.subrange(0, text@.len() as int) == text@);
    }
    let n = text.unicode_len();
    if !has_prefix(text, 0, n, "---\n") {
        return None;
    }
    let ghost l1 = keyed_line(text@.skip(4), id_key());
    let (a1, e1) = match take_keyed_line(text, 4, "id: ") {
        Some(x) => x,
        None => return None,
    };
    assert(l1 == Some((text@.subrange(a1 as int, e1 as int), text@.skip(e1 + 1))));
    let ghost l2 = keyed_line(l1.unwrap().1, name_key());
    let (a2, e2) = match take_keyed_line(text, e1 + 1, "name: ") {
        Some(x) => x,
        None => return None,
    };
    assert(l2 == Some((text@.subrange(a2 as int, e2 as int), text@.skip(e2 + 1))));
    let ghost l3 = keyed_line(l2.unwrap().1, created_key());
    let (a3, e3) = match take_keyed_line(text, e2 + 1, "created_at: ") {
        Some(x) => x,
        None => return None,
    };
    assert(l3 == Some((text@.subrange(a3 as int, e3 as int), text@.skip(e3 + 1))));
    let ghost l4 = keyed_line(l3.unwrap().1, updated_key());
    let (a4, e4) = match take_keyed_line(text, e3 + 1, "updated_at: ") {
        Some(x) => x,
        None => return None,
    };
    assert(l4 == Some((text@.subrange(a4 as int, e4 as int), text@.skip(e4 + 1))));
    proof {
        assert(text@.skip(e4 + 1) == text@.subrange(e4 + 1, n as int));
    }
    if !has_prefix(text, e4 + 1, n, "---") {
        return None;
    }
    Some((a1, e1, a2, e2, a3, e3, a4, e4))
}

/// The stored text of `task` followed by the body of `text`: what a task's file holds
/// after its metadata is written again, with the body below the block kept.
pub fn restamp(text: &str, task: &Task) -> (r: String)
    ensures
        r@ == record_text(task@) + body_of(text@),
{
    let mut r = encode(task);
    let n = text.unicode_len();
    match read_header(text) {
        Some((_, _, _, _, _, _, _, e4)) => {
            proof {
                reveal_strlit("---");
                assert(text@.subrange(e4 + 1, n as int) == after_keyed_lines(text@));
                assert(fence().is_prefix_of(after_keyed_lines(text@)));
            }
            let mut p = e4 + 4;
            if p < n && text.get_char(p) == '\n' {
                proof {
                    assert(after_keyed_lines(text@).skip(3)[0] == text@[p as int]);
                }
                p = p + 1;
            }
            proof {
                let rest = after_keyed_lines(text@).skip(3);
                if e4 + 4 < n && text@[e4 + 4] == '\n' {
                    assert(rest[0] == text@[e4 + 4]);
                    assert(rest.skip(1) == text@.subrange(p as int, n as int));
                } else {
                    if rest.len() > 0 {
                        assert(rest[0] == text@[e4 + 4]);
                    }
                    assert(rest == text@.subrange(p as int, n as int));
                }
            }
            r.append(text.substring_char(p, n));
        },
        None => {
            r.append(text);
        },
    }
    r
}

/// Writing a task's metadata again keeps the body of its file: the body of a stored
/// text followed by any body is that body, so `restamp` puts it back unchanged.
pub proof fn law_restamp_keeps_body(old: TaskView, body: Seq<char>)
    requires
        old.wf(),
    ensures
        body_of(record_text(old) + body) == body,
{
    let s = record_text(old) + body;
    lemma_record_with_body(old, body);
    let rest = after_keyed_lines(s).skip(3);
    assert(rest == seq!['\n'] + body);
    assert(rest[0] == '\n');
    assert(rest.skip(1) == body);
}

/// Reads a task from its stored text, giving it the status of the directory the text
/// was read from. Fails with `MalformedRecord` exactly when `parse_record` finds no
/// task in the text.
pub fn decode(text: &str, status: TaskStatus) -> (r: Result<Task, RecordError>)
    ensures
        match parse_record(text@, status) {
            Some(v) => r is Ok && r.unwrap()@ == v,
            None => r == Err::<Task, RecordError>(RecordError::MalformedRecord),
        },
        r is Ok ==> r.unwrap().wf(),
{
    proof {
        lemma_parse_record_wf(text@, status);
    }
    let (a1, e1, a2, e2, a3, e3, a4, e4) = match read_header(text) {
        Some(x) => x,
        None => return Err(RecordError::MalformedRecord),
    };
    let id = match TaskId::parse(text.substring_char(a1, e1)) {
        Some(x) => x,
        None => return Err(RecordError::MalformedRecord),
    };
    let name = match read_name(text.substring_char(a2, e2)) {
        Some(x) => x,
        None => return Err(RecordError::MalformedRecord),
    };
    let created_at = match Timestamp::parse(text.substring_char(a3, e3)) {
        Some(x) => x,
        None => return Err(RecordError::MalformedRecord),
    };
    let updated_at = match Timestamp::parse(text.substring_char(a4, e4)) {
        Some(x) => x,
        None => return Err(RecordError::MalformedRecord),
    };
    Ok(Task { id, name, status, created_at, updated_at })
}

/// A task decoded from text has valid timestamps.
pub proof fn lemma_parse_record_wf(s: Seq<char>, status: TaskStatus)
    ensures
        parse_record(s, status) is Some ==> parse_record(s, status).unwrap().wf(),
{
    let h = header(s);
    lemma_parse_timestamp_wf(h.unwrap().2);
    lemma_parse_timestamp_wf(h.unwrap().3);
}

} // verus!
