//! Key sorting and trailing-comment alignment.
use vstd::prelude::*;

use crate::ast::{Member, TypeDefinition};
use crate::formatter::config::KeySortStyle;
use crate::formatter::format::anchored_as_key;
use crate::linter::symbol_table::lemma_filter_prefix;
use crate::text::{chars_of, repeat_text, repeated, same_text, utf8_len, utf8_length};

verus! {

/// Whether `a` comes no later than `b` in lexicographic order of code points.
pub open spec fn lex_le(a: Seq<char>, b: Seq<char>) -> bool
    decreases a.len(),
{
    if a.len() == 0 {
        true
    } else if b.len() == 0 {
        false
    } else if a[0] < b[0] {
        true
    } else if a[0] > b[0] {
        false
    } else {
        lex_le(a.drop_first(), b.drop_first())
    }
}

/// The name a member sorts by: a pair's key, a type's or a spread's name.
pub open spec fn member_key(m: Member) -> Seq<char> {
    match m {
        Member::Pair(p) => p.key@,
        Member::TypeDefinition(t) => t.name@,
        Member::Spread(n) => n@,
        Member::Import(_) => Seq::empty(),
    }
}

/// Whether `a` may stay before `b` under the sort style: by key, or by the
/// key's length in UTF-8 bytes.
pub open spec fn key_le(style: KeySortStyle, a: Member, b: Member) -> bool {
    match style {
        KeySortStyle::Length => utf8_len(member_key(a)) <= utf8_len(member_key(b)),
        _ => lex_le(member_key(a), member_key(b)),
    }
}

/// `x` inserted into `s` after every entry that may stay before it, from
/// the end.
pub open spec fn insert_sorted(style: KeySortStyle, s: Seq<Member>, x: Member) -> Seq<Member>
    decreases s.len(),
{
    if s.len() == 0 {
        seq![x]
    } else if key_le(style, s.last(), x) {
        s.push(x)
    } else {
        insert_sorted(style, s.drop_last(), x).push(s.last())
    }
}

/// `s` sorted by key, stably.
pub open spec fn sorted_by_key(style: KeySortStyle, s: Seq<Member>) -> Seq<Member>
    decreases s.len(),
{
    if s.len() == 0 {
        s
    } else {
        insert_sorted(style, sorted_by_key(style, s.drop_last()), s.last())
    }
}

/// Which group a member goes to: type definitions, pairs anchored under
/// their own key, other pairs, everything else.
pub open spec fn member_group(m: Member) -> nat {
    match m {
        Member::TypeDefinition(_) => 0,
        Member::Pair(p) => if anchored_as_key(p.key@, p.value) { 1 } else { 2 },
        _ => 3,
    }
}

/// The members of group `g`, in order.
pub open spec fn group_of(ms: Seq<Member>, g: nat) -> Seq<Member> {
    ms.filter(|m: Member| member_group(m) == g)
}

/// The presentation order: type definitions, anchored pairs, other pairs,
/// the rest; the two pair groups sorted by key unless sorting is off.
pub open spec fn arranged(ms: Seq<Member>, style: KeySortStyle) -> Seq<Member> {
    if style == KeySortStyle::Unsorted {
        ms
    } else {
        group_of(ms, 0) + sorted_by_key(style, group_of(ms, 1)) + sorted_by_key(style, group_of(ms, 2))
            + group_of(ms, 3)
    }
}

/// Whether the string `a` comes no later than `b` in code point order.
fn text_le(a: &str, b: &str) -> (r: bool)
    ensures
        r == lex_le(a@, b@),
{
    let x = chars_of(a);
    let y = chars_of(b);
    let mut i: usize = 0;
    proof {
        assert(x@.subrange(0, x@.len() as int) =~= x@);
        assert(y@.subrange(0, y@.len() as int) =~= y@);
    }
    while i < x.len() && i < y.len() && x[i] == y[i]
        invariant
            x@ == a@,
            y@ == b@,
            i <= x@.len(),
            i <= y@.len(),
            lex_le(a@, b@) == lex_le(x@.subrange(i as int, x@.len() as int), y@.subrange(i as int, y@.len() as int)),
        decreases x.len() - i,
    {
        proof {
            let xs = x@.subrange(i as int, x@.len() as int);
            let ys = y@.subrange(i as int, y@.len() as int);
            assert(xs.drop_first() =~= x@.subrange(i + 1, x@.len() as int));
            assert(ys.drop_first() =~= y@.subrange(i + 1, y@.len() as int));
        }
        i = i + 1;
    }
    proof {
        let xs = x@.subrange(i as int, x@.len() as int);
        let ys = y@.subrange(i as int, y@.len() as int);
        if i < x@.len() {
            assert(xs[0] == x@[i as int]);
        }
        if i < y@.len() {
            assert(ys[0] == y@[i as int]);
        }
    }
    if i == x.len() {
        true
    } else if i == y.len() {
        false
    } else {
        x[i] < y[i]
    }
}

/// The members that a list of references points to.
pub open spec fn derefs(s: Seq<&Member>) -> Seq<Member> {
    s.map_values(|m: &Member| *m)
}

proof fn lemma_derefs_push(s: Seq<&Member>, x: &Member)
    ensures
        derefs(s.push(x)) == derefs(s).push(*x),
{
    assert(derefs(s.push(x)) =~= derefs(s).push(*x));
}

proof fn lemma_insert_at(style: KeySortStyle, s: Seq<Member>, x: Member, k: int)
    requires
        0 <= k <= s.len(),
        k == 0 || key_le(style, s[k - 1], x),
        forall|j: int| k <= j < s.len() ==> !key_le(style, #[trigger] s[j], x),
    ensures
        insert_sorted(style, s, x) == s.subrange(0, k) + seq![x] + s.subrange(k, s.len() as int),
    decreases s.len(),
{
    if s.len() == k {
        if k == 0 {
            assert(s.subrange(0, k) + seq![x] + s.subrange(k, s.len() as int) =~= seq![x]);
        } else {
            assert(s.subrange(0, k) + seq![x] + s.subrange(k, s.len() as int) =~= s.push(x));
        }
    } else {
        let d = s.drop_last();
        assert forall|j: int| k <= j < d.len() implies !key_le(style, #[trigger] d[j], x) by {
            assert(d[j] == s[j]);
        }
        if k > 0 {
            assert(d[k - 1] == s[k - 1]);
        }
        lemma_insert_at(style, d, x, k);
        assert(d.subrange(0, k) + seq![x] + d.subrange(k, d.len() as int) + seq![s.last()]
            =~= s.subrange(0, k) + seq![x] + s.subrange(k, s.len() as int));
        assert(!key_le(style, s.last(), x));
        assert(insert_sorted(style, s, x) == insert_sorted(style, d, x).push(s.last()));
        assert((d.subrange(0, k) + seq![x] + d.subrange(k, d.len() as int)).push(s.last())
            =~= d.subrange(0, k) + seq![x] + d.subrange(k, d.len() as int) + seq![s.last()]);
    }
}

/// The name a member sorts by.
fn get_member_key(member: &Member) -> (r: String)
    ensures
        r@ == member_key(*member),
{
    match member {
        Member::Pair(pair) => pair.key.clone(),
        Member::TypeDefinition(typedef) => typedef.name.clone(),
        Member::Spread(name) => name.clone(),
        Member::Import(_) => String::new(),
    }
}

fn key_le_exec(style: KeySortStyle, a: &Member, b: &Member) -> (r: bool)
    ensures
        r == key_le(style, *a, *b),
{
    let ka = get_member_key(a);
    let kb = get_member_key(b);
    match style {
        KeySortStyle::Length => utf8_length(ka.as_str()) <= utf8_length(kb.as_str()),
        _ => text_le(ka.as_str(), kb.as_str()),
    }
}

fn group_exec(m: &Member) -> (r: usize)
    ensures
        r == member_group(*m),
{
    match m {
        Member::TypeDefinition(_) => 0,
        Member::Pair(pair) => {
            let matching = match &pair.value.anchor {
                Some(a) => same_text(a.as_str(), pair.key.as_str()),
                None => false,
            };
            if matching {
                1
            } else {
                2
            }
        },
        _ => 3,
    }
}

/// `sorted` with `x` inserted after every entry that may stay before it.
fn insert_member<'a>(style: KeySortStyle, sorted: &Vec<&'a Member>, x: &'a Member) -> (r: Vec<&'a Member>)
    ensures
        derefs(r@) == insert_sorted(style, derefs(sorted@), *x),
{
    let ghost s = derefs(sorted@);
    let mut k = sorted.len();
    while k > 0 && !key_le_exec(style, sorted[k - 1], x)
        invariant
            s == derefs(sorted@),
            k <= sorted@.len(),
            forall|j: int| k <= j < s.len() ==> !key_le(style, #[trigger] s[j], *x),
        decreases k,
    {
        k = k - 1;
    }
    proof {
        lemma_insert_at(style, s, *x, k as int);
    }
    let mut r: Vec<&'a Member> = Vec::new();
    let mut i: usize = 0;
    while i < k
        invariant
            s == derefs(sorted@),
            k <= sorted@.len(),
            i <= k,
            derefs(r@) == s.subrange(0, i as int),
        decreases k - i,
    {
        let ghost prev = r@;
        r.push(sorted[i]);
        proof {
            lemma_derefs_push(prev, sorted@[i as int]);
            assert(derefs(r@) =~= s.subrange(0, i + 1));
        }
        i = i + 1;
    }
    let ghost prev = r@;
    r.push(x);
    proof {
        lemma_derefs_push(prev, x);
    }
    let mut j = k;
    proof {
        assert(derefs(r@) =~= s.subrange(0, k as int) + seq![*x] + s.subrange(k as int, k as int));
    }
    while j < sorted.len()
        invariant
            s == derefs(sorted@),
            k <= j <= sorted@.len(),
            derefs(r@) == s.subrange(0, k as int) + seq![*x] + s.subrange(k as int, j as int),
        decreases sorted.len() - j,
    {
        let ghost prev = r@;
        r.push(sorted[j]);
        proof {
            lemma_derefs_push(prev, sorted@[j as int]);
            assert(derefs(r@) =~= s.subrange(0, k as int) + seq![*x] + s.subrange(k as int, j + 1));
        }
        j = j + 1;
    }
    r
}

/// `group` stably sorted by key.
fn sort_group<'a>(style: KeySortStyle, group: &Vec<&'a Member>) -> (r: Vec<&'a Member>)
    ensures
        derefs(r@) == sorted_by_key(style, derefs(group@)),
{
    let ghost g = derefs(group@);
    let mut sorted: Vec<&'a Member> = Vec::new();
    let mut i: usize = 0;
    proof {
        assert(derefs(sorted@) =~= sorted_by_key(style, g.subrange(0, 0)));
    }
    while i < group.len()
        invariant
            g == derefs(group@),
            i <= group@.len(),
            derefs(sorted@) == sorted_by_key(style, g.subrange(0, i as int)),
        decreases group.len() - i,
    {
        proof {
            assert(g.subrange(0, i + 1).drop_last() =~= g.subrange(0, i as int));
        }
        sorted = insert_member(style, &sorted, group[i]);
        i = i + 1;
    }
    proof {
        assert(g.subrange(0, g.len() as int) =~= g);
    }
    sorted
}

/// The members in presentation order: type definitions first, then pairs
/// anchored under their own key, then other pairs, then the rest; the two
/// pair groups sorted by key (alphabetically or by length) unless sorting
/// is off. The object itself is not changed.
pub fn sort_members(members: &Vec<Member>, style: KeySortStyle) -> (r: Vec<&Member>)
    ensures
        derefs(r@) == arranged(members@, style),
{
    let mut all: Vec<&Member> = Vec::new();
    let mut type_defs: Vec<&Member> = Vec::new();
    let mut anchored: Vec<&Member> = Vec::new();
    let mut regular: Vec<&Member> = Vec::new();
    let mut other: Vec<&Member> = Vec::new();
    let ghost ms = members@;
    let mut i: usize = 0;
    while i < members.len()
        invariant
            ms == members@,
            i <= ms.len(),
            derefs(all@) == ms.subrange(0, i as int),
            derefs(type_defs@) == group_of(ms.subrange(0, i as int), 0),
            derefs(anchored@) == group_of(ms.subrange(0, i as int), 1),
            derefs(regular@) == group_of(ms.subrange(0, i as int), 2),
            derefs(other@) == group_of(ms.subrange(0, i as int), 3),
        decreases members.len() - i,
    {
        let m = &members[i];
        proof {
            lemma_filter_prefix(ms, i as int, |m: Member| member_group(m) == 0);
            lemma_filter_prefix(ms, i as int, |m: Member| member_group(m) == 1);
            lemma_filter_prefix(ms, i as int, |m: Member| member_group(m) == 2);
            lemma_filter_prefix(ms, i as int, |m: Member| member_group(m) == 3);
        }
        let ghost (before_all, before_types, before_anchored, before_regular, before_other) = (
            all@,
            type_defs@,
            anchored@,
            regular@,
            other@,
        );
        all.push(m);
        let g = group_exec(m);
        if g == 0 {
            type_defs.push(m);
        } else if g == 1 {
            anchored.push(m);
        } else if g == 2 {
            regular.push(m);
        } else {
            other.push(m);
        }
        proof {
            lemma_derefs_push(before_all, m);
            lemma_derefs_push(before_types, m);
            lemma_derefs_push(before_anchored, m);
            lemma_derefs_push(before_regular, m);
            lemma_derefs_push(before_other, m);
            assert(derefs(all@) =~= ms.subrange(0, i + 1));
            assert(derefs(type_defs@) =~= group_of(ms.subrange(0, i + 1), 0));
            assert(derefs(anchored@) =~= group_of(ms.subrange(0, i + 1), 1));
            assert(derefs(regular@) =~= group_of(ms.subrange(0, i + 1), 2));
            assert(derefs(other@) =~= group_of(ms.subrange(0, i + 1), 3));
        }
        i = i + 1;
    }
    proof {
        assert(ms.subrange(0, ms.len() as int) =~= ms);
    }
    if style == KeySortStyle::Unsorted {
        return all;
    }
    let sorted_anchored = sort_group(style, &anchored);
    let sorted_regular = sort_group(style, &regular);
    let mut result: Vec<&Member> = Vec::new();
    append_refs(&mut result, &type_defs);
    append_refs(&mut result, &sorted_anchored);
    append_refs(&mut result, &sorted_regular);
    append_refs(&mut result, &other);
    proof {
        assert(derefs(result@) =~= arranged(ms, style));
    }
    result
}

fn append_refs<'a>(dst: &mut Vec<&'a Member>, src: &Vec<&'a Member>)
    ensures
        derefs(final(dst)@) == derefs(old(dst)@) + derefs(src@),
{
    let ghost start = derefs(dst@);
    let mut i: usize = 0;
    while i < src.len()
        invariant
            i <= src@.len(),
            derefs(dst@) == start + derefs(src@).subrange(0, i as int),
        decreases src.len() - i,
    {
        let ghost prev = dst@;
        dst.push(src[i]);
        proof {
            lemma_derefs_push(prev, src@[i as int]);
            assert(derefs(dst@) =~= start + derefs(src@).subrange(0, i + 1));
        }
        i = i + 1;
    }
    proof {
        assert(derefs(src@).subrange(0, src@.len() as int) =~= derefs(src@));
    }
}

/// The column for trailing comments: the longest content that has a
/// comment, rounded up to a multiple of 4, plus 4, at most 80.
pub open spec fn alignment_column(longest: nat) -> nat {
    let aligned = (longest + 3) / 4 * 4 + 4;
    if aligned < 80 {
        aligned
    } else {
        80
    }
}

/// The length in UTF-8 bytes of the longest content among `lines` that has
/// a comment.
pub open spec fn longest_commented(lines: Seq<(String, Option<String>)>) -> nat
    decreases lines.len(),
{
    if lines.len() == 0 {
        0
    } else {
        let rest = longest_commented(lines.drop_last());
        let (content, comment) = lines.last();
        if comment is Some && utf8_len(content@) > rest {
            utf8_len(content@)
        } else {
            rest
        }
    }
}

/// The column at which to align the trailing comments of `lines`
/// (content, optional comment).
pub fn calculate_comment_alignment(lines: &Vec<(String, Option<String>)>) -> (r: usize)
    ensures
        r == alignment_column(longest_commented(lines@)),
{
    let mut max_content_len: u128 = 0;
    let mut i: usize = 0;
    while i < lines.len()
        invariant
            i <= lines@.len(),
            max_content_len == longest_commented(lines@.subrange(0, i as int)),
        decreases lines.len() - i,
    {
        proof {
            assert(lines@.subrange(0, i + 1).drop_last() =~= lines@.subrange(0, i as int));
        }
        let (content, comment) = &lines[i];
        if comment.is_some() {
            let n = utf8_length(content.as_str());
            if n > max_content_len {
                max_content_len = n;
            }
        }
        i = i + 1;
    }
    proof {
        assert(lines@.subrange(0, lines@.len() as int) =~= lines@);
    }
    if max_content_len >= 80 {
        return 80;
    }
    let m = max_content_len as usize;
    let aligned = (m + 3) / 4 * 4 + 4;
    if aligned < 80 {
        aligned
    } else {
        80
    }
}

/// `content`, then `comment` starting at byte column `column`; when the
/// content already reaches the column, two spaces separate them instead.
pub open spec fn aligned_text(content: Seq<char>, comment: Seq<char>, column: nat) -> Seq<char> {
    if utf8_len(content) >= column {
        content + "  "@ + comment
    } else {
        content + repeated(" "@, (column - utf8_len(content)) as nat) + comment
    }
}

/// Writes `comment` after `content` at `column`, or two spaces after a
/// content that reaches it.
pub fn align_comment_at(content: &str, comment: &str, column: usize) -> (r: String)
    ensures
        r@ == aligned_text(content@, comment@, column as nat),
{
    let content_len = utf8_length(content);
    let mut r = String::from_str(content);
    if content_len >= column as u128 {
        r.append("  ");
    } else {
        let padding = repeat_text(" ", column - content_len as usize);
        r.append(padding.as_str());
    }
    r.append(comment);
    r
}

proof fn lemma_insert_sorted(style: KeySortStyle, s: Seq<Member>, x: Member)
    ensures
        insert_sorted(style, s, x).len() == s.len() + 1,
        forall|y: Member| #[trigger] insert_sorted(style, s, x).contains(y) ==> s.contains(y) || y == x,
    decreases s.len(),
{
    let r = insert_sorted(style, s, x);
    if s.len() == 0 {
        assert forall|y: Member| #[trigger] r.contains(y) implies s.contains(y) || y == x by {
            let i = choose|i: int| 0 <= i < r.len() && r[i] == y;
        }
    } else if key_le(style, s.last(), x) {
        assert forall|y: Member| #[trigger] r.contains(y) implies s.contains(y) || y == x by {
            let i = choose|i: int| 0 <= i < r.len() && r[i] == y;
            if i < s.len() {
                assert(s[i] == y);
            }
        }
    } else {
        let d = s.drop_last();
        lemma_insert_sorted(style, d, x);
        let t = insert_sorted(style, d, x);
        assert forall|y: Member| #[trigger] r.contains(y) implies s.contains(y) || y == x by {
            let i = choose|i: int| 0 <= i < r.len() && r[i] == y;
            if i < t.len() {
                assert(t.contains(y));
                if d.contains(y) {
                    let j = choose|j: int| 0 <= j < d.len() && d[j] == y;
                    assert(s[j] == y);
                }
            } else {
                assert(s[s.len() - 1] == y);
            }
        }
    }
}

proof fn lemma_sorted_by_key(style: KeySortStyle, s: Seq<Member>)
    ensures
        sorted_by_key(style, s).len() == s.len(),
        forall|y: Member| #[trigger] sorted_by_key(style, s).contains(y) ==> s.contains(y),
    decreases s.len(),
{
    if s.len() > 0 {
        let d = s.drop_last();
        lemma_sorted_by_key(style, d);
        lemma_insert_sorted(style, sorted_by_key(style, d), s.last());
        assert forall|y: Member| #[trigger] sorted_by_key(style, s).contains(y) implies s.contains(y) by {
            if sorted_by_key(style, d).contains(y) {
                let j = choose|j: int| 0 <= j < d.len() && d[j] == y;
                assert(s[j] == y);
            } else {
                assert(s[s.len() - 1] == y);
            }
        }
    }
}

proof fn lemma_groups_len(ms: Seq<Member>)
    ensures
        group_of(ms, 0).len() + group_of(ms, 1).len() + group_of(ms, 2).len() + group_of(ms, 3).len()
            == ms.len(),
    decreases ms.len(),
{
    reveal(Seq::filter);
    if ms.len() > 0 {
        lemma_groups_len(ms.drop_last());
    }
}

proof fn lemma_group_contains(ms: Seq<Member>, g: nat, y: Member)
    requires
        group_of(ms, g).contains(y),
    ensures
        ms.contains(y),
{
    ms.lemma_filter_contains_rev(|m: Member| member_group(m) == g, y);
}

/// The presentation order holds the same number of members, each one of
/// the object's.
pub proof fn lemma_arranged(ms: Seq<Member>, style: KeySortStyle)
    ensures
        arranged(ms, style).len() == ms.len(),
        forall|i: int| 0 <= i < ms.len() ==> ms.contains(#[trigger] arranged(ms, style)[i]),
{
    if style != KeySortStyle::Unsorted {
        let g0 = group_of(ms, 0);
        let g1 = sorted_by_key(style, group_of(ms, 1));
        let g2 = sorted_by_key(style, group_of(ms, 2));
        let g3 = group_of(ms, 3);
        lemma_groups_len(ms);
        lemma_sorted_by_key(style, group_of(ms, 1));
        lemma_sorted_by_key(style, group_of(ms, 2));
        let a = arranged(ms, style);
        assert(a == g0 + g1 + g2 + g3);
        assert forall|i: int| 0 <= i < ms.len() implies ms.contains(#[trigger] a[i]) by {
            let y = a[i];
            if i < g0.len() {
                assert(g0[i] == y);
                assert(g0.contains(y));
                lemma_group_contains(ms, 0, y);
            } else if i < g0.len() + g1.len() {
                assert(g1[i - g0.len()] == y);
                assert(g1.contains(y));
                lemma_group_contains(ms, 1, y);
            } else if i < g0.len() + g1.len() + g2.len() {
                assert(g2[i - g0.len() - g1.len()] == y);
                assert(g2.contains(y));
                lemma_group_contains(ms, 2, y);
            } else {
                assert(g3[i - g0.len() - g1.len() - g2.len()] == y);
                assert(g3.contains(y));
                lemma_group_contains(ms, 3, y);
            }
        }
    } else {
        assert forall|i: int| 0 <= i < ms.len() implies ms.contains(#[trigger] arranged(ms, style)[i]) by {
            assert(ms[i] == arranged(ms, style)[i]);
        }
    }
}

/// Each member in presentation order is smaller than the member list.
pub proof fn lemma_arranged_smaller(ms: Seq<Member>, style: KeySortStyle, i: int)
    requires
        0 <= i < ms.len(),
    ensures
        decreases_to!(ms => arranged(ms, style)[i]),
{
    lemma_arranged(ms, style);
    let j = choose|j: int| 0 <= j < ms.len() && ms[j] == arranged(ms, style)[i];
    assert(decreases_to!(ms => ms[j]));
}

} // verus!
