use crate::text::push_char;
use vstd::prelude::*;

verus! {

/// The characters with the Unicode `White_Space` property.
pub open spec fn is_white(c: char) -> bool {
    let x = c as u32;
    (0x09 <= x <= 0x0d) || x == 0x20 || x == 0x85 || x == 0xa0 || x == 0x1680 || (0x2000 <= x
        <= 0x200a) || x == 0x2028 || x == 0x2029 || x == 0x202f || x == 0x205f || x == 0x3000
}

/// Whether a character has the Unicode `White_Space` property.
pub fn is_white_char(c: char) -> (r: bool)
    ensures
        r == is_white(c),
{
    let x = c as u32;
    (0x09 <= x && x <= 0x0d) || x == 0x20 || x == 0x85 || x == 0xa0 || x == 0x1680 || (0x2000 <= x
        && x <= 0x200a) || x == 0x2028 || x == 0x2029 || x == 0x202f || x == 0x205f || x == 0x3000
}

/// The words completed so far in `s`, read from the left, and the word still open at
/// its end.
pub open spec fn words_acc(s: Seq<char>) -> (Seq<Seq<char>>, Seq<char>)
    decreases s.len(),
{
    if s.len() == 0 {
        (seq![], seq![])
    } else {
        let (ws, cur) = words_acc(s.drop_last());
        let c = s.last();
        if is_white(c) {
            if cur.len() > 0 {
                (ws.push(cur), seq![])
            } else {
                (ws, cur)
            }
        } else {
            (ws, cur.push(c))
        }
    }
}

/// The words of `s`: its maximal runs of characters that are not white space.
pub open spec fn words(s: Seq<char>) -> Seq<Seq<char>> {
    let (ws, cur) = words_acc(s);
    if cur.len() > 0 {
        ws.push(cur)
    } else {
        ws
    }
}

/// The lines completed so far when the words `ws` fill lines of `width` characters
/// greedily, and the line still open.
pub open spec fn fill_acc(ws: Seq<Seq<char>>, width: nat) -> (Seq<Seq<char>>, Seq<char>)
    decreases ws.len(),
{
    if ws.len() == 0 {
        (seq![], seq![])
    } else {
        let (lines, cur) = fill_acc(ws.drop_last(), width);
        let w = ws.last();
        if cur.len() == 0 {
            (lines, w)
        } else if cur.len() + 1 + w.len() <= width {
            (lines, cur + seq![' '] + w)
        } else {
            (lines.push(cur), w)
        }
    }
}

/// A task name laid out in lines of `width` characters: the name as it is when it fits
/// (or when the width is zero); otherwise its words, one space apart, each line filled
/// with as many words as fit. A word longer than the width stands on a line of its own.
pub open spec fn wrapped(name: Seq<char>, width: nat) -> Seq<Seq<char>> {
    if width == 0 || name.len() <= width {
        seq![name]
    } else {
        let (lines, cur) = fill_acc(words(name), width);
        if cur.len() > 0 {
            lines.push(cur)
        } else {
            lines
        }
    }
}

/// The views of a sequence of strings.
pub open spec fn string_views(s: Seq<String>) -> Seq<Seq<char>> {
    s.map_values(|x: String| x@)
}

/// The words of `name`, as `words` gives them.
fn split_words(name: &str) -> (r: Vec<String>)
    ensures
        string_views(r@) == words(name@),
{
    let n = name.unicode_len();
    let mut ws: Vec<String> = Vec::new();
    let mut cur = String::new();
    let mut i: usize = 0;
    while i < n
        invariant
            n == name@.len(),
            i <= n,
            (string_views(ws@), cur@) == words_acc(name@.take(i as int)),
        decreases n - i,
    {
        let c = name.get_char(i);
        proof {
            assert(name@.take(i + 1).drop_last() == name@.take(i as int));
            assert(name@.take(i + 1).last() == c);
        }
        if is_white_char(c) {
            if cur.unicode_len() > 0 {
                let mut done = String::new();
                std::mem::swap(&mut done, &mut cur);
                let ghost before = ws@;
                ws.push(done);
                proof {
                    assert(string_views(ws@) == string_views(before).push(done@));
                }
            }
        } else {
            push_char(&mut cur, c);
        }
        i += 1;
    }
    proof {
        assert(name@.take(n as int) == name@);
    }
    if cur.unicode_len() > 0 {
        let ghost before = ws@;
        ws.push(cur);
        proof {
            assert(string_views(ws@) == string_views(before).push(cur@));
        }
    }
    ws
}

/// Lays out a task name in lines of at most `width` characters, as `wrapped` says.
pub fn wrap_task_name(name: &str, width: usize) -> (r: Vec<String>)
    ensures
        string_views(r@) == wrapped(name@, width as nat),
{
    if width == 0 || name.unicode_len() <= width {
        let mut r: Vec<String> = Vec::new();
        r.push(name.to_owned());
        proof {
            assert(string_views(r@) == seq![name@]);
        }
        return r;
    }
    let ws = split_words(name);
    let mut lines: Vec<String> = Vec::new();
    let mut cur = String::new();
    let mut j: usize = 0;
    while j < ws.len()
        invariant
            j <= ws@.len(),
            (string_views(lines@), cur@) == fill_acc(string_views(ws@).take(j as int), width as nat),
        decreases ws@.len() - j,
    {
        let w = ws[j].as_str();
        proof {
            assert(string_views(ws@).take(j + 1).drop_last() == string_views(ws@).take(j as int));
            assert(string_views(ws@).take(j + 1).last() == w@);
        }
        let line_len = cur.unicode_len();
        let word_len = w.unicode_len();
        if line_len == 0 {
            cur.append(w);
            proof {
                assert(Seq::<char>::empty() + w@ == w@);
            }
        } else if line_len < width && word_len <= width - line_len - 1 {
            push_char(&mut cur, ' ');
            cur.append(w);
        } else {
            let mut done = String::new();
            std::mem::swap(&mut done, &mut cur);
            let ghost before = lines@;
            lines.push(done);
            cur = w.to_owned();
            proof {
                assert(string_views(lines@) == string_views(before).push(done@));
            }
        }
        j += 1;
    }
    proof {
        assert(string_views(ws@).take(j as int) == string_views(ws@));
    }
    if cur.unicode_len() > 0 {
        let ghost before = lines@;
        lines.push(cur);
        proof {
            assert(string_views(lines@) == string_views(before).push(cur@));
        }
    }
    lines
}

} // verus!
