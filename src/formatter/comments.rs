//! Line comments of the source, found so they can be re-attached.
use vstd::prelude::*;

use crate::text::{chars_of, is_whitespace, text_of_range, whitespace_char};

verus! {

/// A `//` comment: its zero-based line, the column where it starts (in
/// characters), its text up to the end of the line without trailing
/// whitespace, and whether code precedes it on the line.
#[derive(Debug, Clone)]
pub struct Comment {
    pub line: usize,
    pub column: usize,
    pub text: String,
    pub is_trailing: bool,
}

/// `s` cut at each `\n`: every piece but the last ended with one.
pub open spec fn pieces(s: Seq<char>) -> Seq<Seq<char>>
    decreases s.len(),
{
    if s.len() == 0 {
        seq![Seq::empty()]
    } else {
        let p = pieces(s.drop_last());
        if s.last() == '\n' {
            p.push(Seq::empty())
        } else {
            p.update(p.len() - 1, p.last().push(s.last()))
        }
    }
}

/// A line without the `\r` of a `\r\n` ending.
pub open spec fn strip_cr(l: Seq<char>) -> Seq<char> {
    if l.len() > 0 && l.last() == '\r' {
        l.drop_last()
    } else {
        l
    }
}

/// The lines of a text: each piece that ended with `\n` (without a `\r`
/// before it), then the rest if it is not empty.
pub open spec fn source_lines(s: Seq<char>) -> Seq<Seq<char>> {
    let p = pieces(s);
    let ended = p.drop_last().map_values(|l: Seq<char>| strip_cr(l));
    if p.last().len() == 0 {
        ended
    } else {
        ended.push(p.last())
    }
}

/// Whether a quoted string is open after reading `cs`, and whether the next
/// character is escaped by a backslash.
pub open spec fn scan_state(cs: Seq<char>) -> (bool, bool)
    decreases cs.len(),
{
    if cs.len() == 0 {
        (false, false)
    } else {
        let (in_string, escaped) = scan_state(cs.drop_last());
        let c = cs.last();
        if escaped {
            (in_string, false)
        } else if c == '\\' {
            (in_string, true)
        } else if c == '"' {
            (!in_string, false)
        } else {
            (in_string, false)
        }
    }
}

/// Whether a comment starts at position `p` of the line `cs`: a `//` that
/// is not inside a quoted string.
pub open spec fn comment_starts_at(cs: Seq<char>, p: int) -> bool {
    0 <= p && p + 1 < cs.len() && cs[p] == '/' && cs[p + 1] == '/' && !scan_state(
        cs.subrange(0, p),
    ).0
}

/// The first position at or after `p` where a comment starts.
pub open spec fn first_comment_from(cs: Seq<char>, p: nat) -> Option<nat>
    decreases cs.len() - p,
{
    if p + 1 >= cs.len() {
        None
    } else if comment_starts_at(cs, p as int) {
        Some(p)
    } else {
        first_comment_from(cs, p + 1)
    }
}

/// `s` without trailing whitespace.
pub open spec fn trim_end(s: Seq<char>) -> Seq<char>
    decreases s.len(),
{
    if s.len() > 0 && whitespace_char(s.last()) {
        trim_end(s.drop_last())
    } else {
        s
    }
}

/// Whether some character of `s` is not whitespace.
pub open spec fn has_content(s: Seq<char>) -> bool {
    exists|i: int| 0 <= i < s.len() && !whitespace_char(#[trigger] s[i])
}

/// The comment of line number `n` whose characters are `cs`, if any.
pub open spec fn line_comment(cs: Seq<char>, n: nat) -> Option<(nat, nat, Seq<char>, bool)> {
    match first_comment_from(cs, 0) {
        Some(p) => Some(
            (n, p, trim_end(cs.subrange(p as int, cs.len() as int)), has_content(cs.subrange(0, p as int))),
        ),
        None => None,
    }
}

/// The comments of `lines`, in line order.
pub open spec fn comments_in(lines: Seq<Seq<char>>) -> Seq<(nat, nat, Seq<char>, bool)>
    decreases lines.len(),
{
    if lines.len() == 0 {
        Seq::empty()
    } else {
        let rest = comments_in(lines.drop_last());
        match line_comment(lines.last(), (lines.len() - 1) as nat) {
            Some(c) => rest.push(c),
            None => rest,
        }
    }
}

/// The view of a comment.
pub open spec fn comment_model(c: Comment) -> (nat, nat, Seq<char>, bool) {
    (c.line as nat, c.column as nat, c.text@, c.is_trailing)
}

/// The text of `cs[start..end]` without the `\r` of a `\r\n` ending.
fn line_text(cs: &Vec<char>, start: usize, end: usize) -> (r: String)
    requires
        start <= end <= cs@.len(),
    ensures
        r@ == strip_cr(cs@.subrange(start as int, end as int)),
{
    if end > start && cs[end - 1] == '\r' {
        let r = text_of_range(cs, start, end - 1);
        assert(r@ =~= cs@.subrange(start as int, end as int).drop_last());
        r
    } else {
        text_of_range(cs, start, end)
    }
}

/// The lines of `source` (see [`source_lines`]).
pub fn split_lines(source: &str) -> (r: Vec<String>)
    ensures
        r@.map_values(|l: String| l@) == source_lines(source@),
{
    let cs = chars_of(source);
    let mut lines: Vec<String> = Vec::new();
    let ghost mut done: Seq<Seq<char>> = Seq::empty();
    let mut start: usize = 0;
    let mut i: usize = 0;
    proof {
        assert(cs@.subrange(0, 0) =~= Seq::<char>::empty());
        assert(pieces(cs@.subrange(0, 0)) =~= done.push(cs@.subrange(0, 0)));
    }
    while i < cs.len()
        invariant
            cs@ == source@,
            start <= i <= cs@.len(),
            pieces(cs@.subrange(0, i as int)) == done.push(cs@.subrange(start as int, i as int)),
            lines@.map_values(|l: String| l@) == done.map_values(|l: Seq<char>| strip_cr(l)),
        decreases cs.len() - i,
    {
        let ghost cur = cs@.subrange(start as int, i as int);
        proof {
            assert(cs@.subrange(0, i + 1).drop_last() =~= cs@.subrange(0, i as int));
        }
        if cs[i] == '\n' {
            let line = line_text(&cs, start, i);
            let ghost prev = lines@;
            lines.push(line);
            proof {
                assert(lines@.map_values(|l: String| l@) =~= prev.map_values(|l: String| l@).push(line@));
                assert(done.push(cur).map_values(|l: Seq<char>| strip_cr(l)) =~= done.map_values(|l: Seq<char>| strip_cr(l)).push(strip_cr(cur)));
                done = done.push(cur);
                assert(cs@.subrange((i + 1) as int, (i + 1) as int) =~= Seq::<char>::empty());
            }
            start = i + 1;
        } else {
            proof {
                assert(cs@.subrange(start as int, i + 1) =~= cur.push(cs@[i as int]));
                assert(done.push(cur).update(done.len() as int, cur.push(cs@[i as int])) =~= done.push(cur.push(cs@[i as int])));
            }
        }
        i = i + 1;
    }
    proof {
        assert(cs@.subrange(0, cs@.len() as int) =~= cs@);
        assert(done.push(cs@.subrange(start as int, i as int)).drop_last() =~= done);
    }
    if start < cs.len() {
        let rest = text_of_range(&cs, start, cs.len());
        let ghost prev = lines@;
        lines.push(rest);
        proof {
            assert(lines@.map_values(|l: String| l@) =~= prev.map_values(|l: String| l@).push(rest@));
            assert(lines@.map_values(|l: String| l@) =~= done.map_values(|l: Seq<char>| strip_cr(l)).push(rest@));
        }
    }
    lines
}

/// The first position where a comment starts in the line `cs`.
fn find_comment(cs: &Vec<char>) -> (r: Option<usize>)
    ensures
        r.is_some() == first_comment_from(cs@, 0).is_some(),
        r.is_some() ==> r.unwrap() as nat == first_comment_from(cs@, 0).unwrap(),
        r.is_some() ==> r.unwrap() + 1 < cs@.len(),
{
    let mut in_string = false;
    let mut escaped = false;
    let mut p: usize = 0;
    proof {
        assert(cs@.subrange(0, 0) =~= Seq::<char>::empty());
    }
    while p < cs.len() && p + 1 < cs.len()
        invariant
            p <= cs@.len(),
            first_comment_from(cs@, 0) == first_comment_from(cs@, p as nat),
            (in_string, escaped) == scan_state(cs@.subrange(0, p as int)),
        decreases cs.len() - p,
    {
        if cs[p] == '/' && cs[p + 1] == '/' && !in_string {
            return Some(p);
        }
        proof {
            assert(cs@.subrange(0, p + 1).drop_last() =~= cs@.subrange(0, p as int));
        }
        let c = cs[p];
        if escaped {
            escaped = false;
        } else if c == '\\' {
            escaped = true;
        } else if c == '"' {
            in_string = !in_string;
        }
        p = p + 1;
    }
    None
}

/// The comment of one line, if any.
fn comment_of_line(line: &str, n: usize) -> (r: Option<Comment>)
    ensures
        r.is_some() == line_comment(line@, n as nat).is_some(),
        r.is_some() ==> comment_model(r.unwrap()) == line_comment(line@, n as nat).unwrap(),
{
    let cs = chars_of(line);
    match find_comment(&cs) {
        Some(p) => {
            let mut end = cs.len();
            proof {
                assert(cs@.subrange(p as int, cs@.len() as int) =~= cs@.subrange(p as int, end as int));
            }
            while end > p && is_whitespace(cs[end - 1])
                invariant
                    p < cs@.len(),
                    p <= end <= cs@.len(),
                    trim_end(cs@.subrange(p as int, cs@.len() as int)) == trim_end(
                        cs@.subrange(p as int, end as int),
                    ),
                decreases end,
            {
                proof {
                    assert(cs@.subrange(p as int, end as int).drop_last() =~= cs@.subrange(
                        p as int,
                        end - 1,
                    ));
                }
                end = end - 1;
            }
            let text = text_of_range(&cs, p, end);
            proof {
                let t = cs@.subrange(p as int, end as int);
                if end > p {
                    assert(t.last() == cs@[end - 1]);
                }
                assert(trim_end(t) == t);
            }
            let mut k: usize = 0;
            let mut content = false;
            while k < p
                invariant
                    p <= cs@.len(),
                    k <= p,
                    content == exists|j: int| 0 <= j < k && !whitespace_char(#[trigger] cs@[j]),
                decreases p - k,
            {
                if !is_whitespace(cs[k]) {
                    content = true;
                }
                k = k + 1;
            }
            proof {
                let pre = cs@.subrange(0, p as int);
                assert(has_content(pre) == content) by {
                    if content {
                        let j = choose|j: int| 0 <= j < p && !whitespace_char(#[trigger] cs@[j]);
                        assert(pre[j] == cs@[j]);
                    }
                    if has_content(pre) {
                        let j = choose|j: int| 0 <= j < pre.len() && !whitespace_char(#[trigger] pre[j]);
                        assert(pre[j] == cs@[j]);
                    }
                }
            }
            Some(Comment { line: n, column: p, text, is_trailing: content })
        },
        None => None,
    }
}

/// The comments of `source`, one per line at most, in line order.
pub fn extract_comments(source: &str) -> (r: Vec<Comment>)
    ensures
        r@.map_values(|c: Comment| comment_model(c)) == comments_in(source_lines(source@)),
{
    let lines = split_lines(source);
    let ghost ls = source_lines(source@);
    let mut r: Vec<Comment> = Vec::new();
    let mut n: usize = 0;
    proof {
        assert(ls.subrange(0, 0) =~= Seq::<Seq<char>>::empty());
        assert(r@.map_values(|c: Comment| comment_model(c)) =~= Seq::<(nat, nat, Seq<char>, bool)>::empty());
        assert(lines@.len() == ls.len());
    }
    while n < lines.len()
        invariant
            lines@.map_values(|l: String| l@) == ls,
            lines@.len() == ls.len(),
            n <= lines@.len(),
            r@.map_values(|c: Comment| comment_model(c)) == comments_in(ls.subrange(0, n as int)),
        decreases lines.len() - n,
    {
        proof {
            assert(ls.subrange(0, n + 1).drop_last() =~= ls.subrange(0, n as int));
            assert(ls[n as int] == lines@[n as int]@);
        }
        match comment_of_line(lines[n].as_str(), n) {
            Some(c) => {
                r.push(c);
                proof {
                    assert(r@.map_values(|c: Comment| comment_model(c)) =~= comments_in(ls.subrange(0, n as int)).push(comment_model(c)));
                }
            },
            None => {},
        }
        n = n + 1;
    }
    proof {
        assert(ls.subrange(0, ls.len() as int) =~= ls);
    }
    r
}


/// The first comment of `cm` on line `line`.
pub open spec fn comment_on(cm: Seq<(nat, nat, Seq<char>, bool)>, line: nat) -> Option<
    (nat, nat, Seq<char>, bool),
>
    decreases cm.len(),
{
    if cm.len() == 0 {
        None
    } else if cm[0].0 == line {
        Some(cm[0])
    } else {
        comment_on(cm.drop_first(), line)
    }
}

/// No comment sits on a line past every comment's line.
pub proof fn lemma_comment_on_none(cm: Seq<(nat, nat, Seq<char>, bool)>, line: nat)
    requires
        forall|j: int| 0 <= j < cm.len() ==> (#[trigger] cm[j]).0 < line,
    ensures
        comment_on(cm, line).is_none(),
    decreases cm.len(),
{
    if cm.len() > 0 {
        assert forall|j: int| 0 <= j < cm.drop_first().len() implies (#[trigger] cm.drop_first()[j]).0 < line by {
            assert(cm.drop_first()[j] == cm[j + 1]);
        }
        lemma_comment_on_none(cm.drop_first(), line);
    }
}

/// The comment on line `line`, if any.
pub fn comment_at_line(comments: &Vec<Comment>, line: usize) -> (r: Option<&Comment>)
    ensures
        r.is_some() == comment_on(comments@.map_values(|c: Comment| comment_model(c)), line as nat).is_some(),
        r.is_some() ==> comment_model(*r.unwrap()) == comment_on(
            comments@.map_values(|c: Comment| comment_model(c)),
            line as nat,
        ).unwrap(),
{
    let ghost cm = comments@.map_values(|c: Comment| comment_model(c));
    let mut i: usize = 0;
    proof {
        assert(cm.subrange(0, cm.len() as int) =~= cm);
    }
    while i < comments.len()
        invariant
            cm == comments@.map_values(|c: Comment| comment_model(c)),
            i <= comments@.len(),
            comment_on(cm, line as nat) == comment_on(cm.subrange(i as int, cm.len() as int), line as nat),
        decreases comments.len() - i,
    {
        let ghost rest = cm.subrange(i as int, cm.len() as int);
        proof {
            assert(rest.drop_first() =~= cm.subrange(i + 1, cm.len() as int));
            assert(rest[0] == comment_model(comments@[i as int]));
        }
        if comments[i].line == line {
            return Some(&comments[i]);
        }
        i = i + 1;
    }
    None
}

} // verus!
