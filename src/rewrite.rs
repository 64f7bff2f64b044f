//! The import rewrite: ascent depth of an import line, the equality gate and
//! the substitution of the alias prefix.
use vstd::prelude::*;
use crate::text::{
    char_views, chars_of, is_white_space, join, join_lines, lines_of, split_lines, string_of,
    string_views, white_space,
};

verus! {

/// The keyword that starts an import line.
pub open spec fn import_keyword() -> Seq<char> {
    seq!['i', 'm', 'p', 'o', 'r', 't']
}

/// The parent-directory segment counted and removed in module paths.
pub open spec fn ascent_segment() -> Seq<char> {
    seq!['.', '.', '/']
}

/// The root alias written in front of a rewritten module path.
pub open spec fn alias_prefix() -> Seq<char> {
    seq!['@', '/']
}

/// Whether `l` starts with the import keyword.
pub open spec fn starts_with_import(l: Seq<char>) -> bool {
    l.len() >= 6 && l.take(6) == import_keyword()
}

/// `s` with its trailing whitespace removed.
pub open spec fn trim_end_white(s: Seq<char>) -> Seq<char>
    decreases s.len(),
{
    if s.len() > 0 && is_white_space(s.last()) {
        trim_end_white(s.drop_last())
    } else {
        s
    }
}

/// The longest suffix of `s` that holds no whitespace.
pub open spec fn last_run(s: Seq<char>) -> Seq<char>
    decreases s.len(),
{
    if s.len() > 0 && !is_white_space(s.last()) {
        last_run(s.drop_last()).push(s.last())
    } else {
        Seq::empty()
    }
}

/// The last whitespace-delimited token of `l`; empty where `l` has none.
pub open spec fn last_token(l: Seq<char>) -> Seq<char> {
    last_run(trim_end_white(l))
}

/// The number of non-overlapping ascent segments in `s`, found from the left.
pub open spec fn ascent_count(s: Seq<char>) -> nat
    decreases s.len(),
{
    if s.len() < 3 {
        0
    } else if s.take(3) == ascent_segment() {
        1 + ascent_count(s.skip(3))
    } else {
        ascent_count(s.skip(1))
    }
}

/// `s` with every ascent segment that `ascent_count` counts removed.
pub open spec fn strip_ascents(s: Seq<char>) -> Seq<char>
    decreases s.len(),
{
    if s.len() < 3 {
        s
    } else if s.take(3) == ascent_segment() {
        strip_ascents(s.skip(3))
    } else {
        seq![s[0]] + strip_ascents(s.skip(1))
    }
}

/// The ascent depth of an import line.
pub open spec fn import_ascent(l: Seq<char>) -> nat {
    ascent_count(last_token(l))
}

/// The index of the first single quote in `s` at or after `from`, or the
/// length of `s` where there is none.
pub open spec fn quote_at_or_after(s: Seq<char>, from: int) -> int
    decreases s.len() - from,
{
    if from >= s.len() {
        s.len() as int
    } else if s[from] == '\'' {
        from
    } else {
        quote_at_or_after(s, from + 1)
    }
}

/// The index of the first quote of `l`.
pub open spec fn first_quote(l: Seq<char>) -> int {
    quote_at_or_after(l, 0)
}

/// The index of the quote after the first one.
pub open spec fn second_quote(l: Seq<char>) -> int {
    quote_at_or_after(l, first_quote(l) + 1)
}

/// The index of the quote after the second one.
pub open spec fn third_quote(l: Seq<char>) -> int {
    quote_at_or_after(l, second_quote(l) + 1)
}

/// Whether `l` splits at single quotes into at least three parts.
pub open spec fn has_quoted_specifier(l: Seq<char>) -> bool {
    second_quote(l) < l.len()
}

/// The text before the first quote.
pub open spec fn head_part(l: Seq<char>) -> Seq<char> {
    l.take(first_quote(l))
}

/// The module specifier: the text between the first two quotes.
pub open spec fn specifier_part(l: Seq<char>) -> Seq<char> {
    l.subrange(first_quote(l) + 1, second_quote(l))
}

/// The text between the second quote and the next one, or the end.
pub open spec fn tail_part(l: Seq<char>) -> Seq<char> {
    l.subrange(second_quote(l) + 1, third_quote(l))
}

/// Whether the line `l` is due for a rewrite in a file at depth `depth`: it
/// starts with `import`, and its ascent depth is positive and equals `depth`.
pub open spec fn rewrite_due(l: Seq<char>, depth: nat) -> bool {
    starts_with_import(l) && import_ascent(l) > 0 && import_ascent(l) == depth
}

/// The alias form of `l`: head, then the specifier with its ascent segments
/// removed behind `@/`, in quotes, then the tail.
pub open spec fn alias_form(l: Seq<char>) -> Seq<char> {
    head_part(l) + seq!['\''] + alias_prefix() + strip_ascents(specifier_part(l)) + seq!['\'']
        + tail_part(l)
}

/// What the line `l` becomes in a file at depth `depth`.
pub open spec fn line_after(l: Seq<char>, depth: nat) -> Seq<char> {
    if rewrite_due(l, depth) && has_quoted_specifier(l) {
        alias_form(l)
    } else {
        l
    }
}

/// What happened to one line.
#[derive(Debug)]
pub enum LineRewrite {
    /// The line is not due for a rewrite and stays as it is.
    Unchanged,
    /// The line is due and became the given text.
    Rewritten(String),
    /// The line is due, but has no quoted module path; it stays as it is.
    Malformed,
}

/// The outcome that `rewrite_line` owes for the line `l` at depth `depth`.
pub open spec fn outcome_matches(r: LineRewrite, l: Seq<char>, depth: nat) -> bool {
    if !rewrite_due(l, depth) {
        r is Unchanged
    } else if !has_quoted_specifier(l) {
        r is Malformed
    } else {
        r is Rewritten && r->Rewritten_0@ == alias_form(l)
    }
}

/// The number of ascent segments in `v[lo..hi]`.
fn count_ascents(v: &Vec<char>, lo: usize, hi: usize) -> (r: usize)
    requires
        lo <= hi <= v.len(),
    ensures
        r == ascent_count(v@.subrange(lo as int, hi as int)),
{
    let ghost whole = v@.subrange(lo as int, hi as int);
    let mut acc: usize = 0;
    let mut i: usize = lo;
    while 3 <= hi - i
        invariant
            lo <= i <= hi <= v.len(),
            acc <= i - lo,
            ascent_count(whole) == acc + ascent_count(v@.subrange(i as int, hi as int)),
        decreases hi - i,
    {
        let ghost rest = v@.subrange(i as int, hi as int);
        let is_seg = v[i] == '.' && v[i + 1] == '.' && v[i + 2] == '/';
        if is_seg {
            assert(rest.take(3) == ascent_segment());
            assert(rest.skip(3) == v@.subrange(i + 3, hi as int));
            acc = acc + 1;
            i = i + 3;
        } else {
            assert(rest.take(3) != ascent_segment()) by {
                if rest.take(3) == ascent_segment() {
                    assert(rest.take(3)[0] == '.');
                    assert(rest.take(3)[1] == '.');
                    assert(rest.take(3)[2] == '/');
                }
            }
            assert(rest.skip(1) == v@.subrange(i + 1, hi as int));
            i = i + 1;
        }
    }
    acc
}

/// `v[lo..hi]` with its ascent segments removed.
fn remove_ascents(v: &Vec<char>, lo: usize, hi: usize) -> (r: Vec<char>)
    requires
        lo <= hi <= v.len(),
    ensures
        r@ == strip_ascents(v@.subrange(lo as int, hi as int)),
{
    let ghost whole = v@.subrange(lo as int, hi as int);
    let mut out: Vec<char> = Vec::new();
    let mut i: usize = lo;
    while 3 <= hi - i
        invariant
            lo <= i <= hi <= v.len(),
            strip_ascents(whole) == out@ + strip_ascents(v@.subrange(i as int, hi as int)),
        decreases hi - i,
    {
        let ghost rest = v@.subrange(i as int, hi as int);
        let is_seg = v[i] == '.' && v[i + 1] == '.' && v[i + 2] == '/';
        if is_seg {
            assert(rest.take(3) == ascent_segment());
            assert(rest.skip(3) == v@.subrange(i + 3, hi as int));
            i = i + 3;
        } else {
            assert(rest.take(3) != ascent_segment()) by {
                if rest.take(3) == ascent_segment() {
                    assert(rest.take(3)[0] == '.');
                    assert(rest.take(3)[1] == '.');
                    assert(rest.take(3)[2] == '/');
                }
            }
            assert(rest.skip(1) == v@.subrange(i + 1, hi as int));
            assert(strip_ascents(rest) == seq![v@[i as int]] + strip_ascents(rest.skip(1)));
            out.push(v[i]);
            assert(out@ + strip_ascents(rest.skip(1)) == (out@.drop_last() + seq![v@[i as int]])
                + strip_ascents(rest.skip(1)));
            i = i + 1;
        }
    }
    while i < hi
        invariant
            lo <= i <= hi <= v.len(),
            hi - i < 3,
            strip_ascents(whole) == out@ + v@.subrange(i as int, hi as int),
        decreases hi - i,
    {
        out.push(v[i]);
        assert(v@.subrange(i as int, hi as int) == seq![v@[i as int]] + v@.subrange(
            i + 1,
            hi as int,
        ));
        i = i + 1;
    }
    assert(v@.subrange(hi as int, hi as int) == Seq::<char>::empty());
    assert(out@ == out@ + Seq::<char>::empty());
    out
}

/// The bounds of the last whitespace-delimited token of `v`.
fn last_token_bounds(v: &Vec<char>) -> (r: (usize, usize))
    ensures
        r.0 <= r.1 <= v.len(),
        v@.subrange(r.0 as int, r.1 as int) == last_token(v@),
{
    let mut e: usize = v.len();
    assert(v@.take(e as int) == v@);
    while e > 0 && white_space(v[e - 1])
        invariant
            e <= v.len(),
            trim_end_white(v@) == trim_end_white(v@.take(e as int)),
        decreases e,
    {
        assert(v@.take(e as int).drop_last() == v@.take(e - 1));
        e = e - 1;
    }
    let mut b: usize = e;
    assert(v@.subrange(b as int, e as int) == Seq::<char>::empty());
    while b > 0 && !white_space(v[b - 1])
        invariant
            b <= e <= v.len(),
            last_run(v@.take(e as int)) == last_run(v@.take(b as int)) + v@.subrange(
                b as int,
                e as int,
            ),
        decreases b,
    {
        assert(v@.take(b as int).drop_last() == v@.take(b - 1));
        assert(v@.subrange(b - 1, e as int) == seq![v@[b - 1]] + v@.subrange(b as int, e as int));
        b = b - 1;
    }
    (b, e)
}

/// The ascent depth of `v`, read as a line.
fn ascent_of(v: &Vec<char>) -> (r: usize)
    ensures
        r == import_ascent(v@),
{
    let (b, e) = last_token_bounds(v);
    count_ascents(v, b, e)
}

/// The ascent depth of an import line: the number of `../` segments in its
/// last whitespace-delimited token; 0 where there is none, or no token.
pub fn import_depth(line: &str) -> (r: usize)
    ensures
        r == import_ascent(line@),
{
    let v = chars_of(line);
    ascent_of(&v)
}

/// The index of the first quote in `v` at or after `from`, or `v.len()`.
fn find_quote(v: &Vec<char>, from: usize) -> (r: usize)
    requires
        from <= v.len(),
    ensures
        r == quote_at_or_after(v@, from as int),
        from <= r <= v.len(),
{
    let mut i: usize = from;
    while i < v.len() && v[i] != '\''
        invariant
            from <= i <= v.len(),
            quote_at_or_after(v@, from as int) == quote_at_or_after(v@, i as int),
        decreases v.len() - i,
    {
        i = i + 1;
    }
    i
}

/// Whether `v` starts with `import`.
fn starts_with_keyword(v: &Vec<char>) -> (r: bool)
    ensures
        r == starts_with_import(v@),
{
    let r = v.len() >= 6 && v[0] == 'i' && v[1] == 'm' && v[2] == 'p' && v[3] == 'o' && v[4]
        == 'r' && v[5] == 't';
    if v.len() >= 6 {
        if r {
            assert(v@.take(6) == import_keyword());
        } else {
            assert(v@.take(6) != import_keyword()) by {
                if v@.take(6) == import_keyword() {
                    assert(v@.take(6)[0] == 'i' && v@.take(6)[1] == 'm' && v@.take(6)[2] == 'p'
                        && v@.take(6)[3] == 'o' && v@.take(6)[4] == 'r' && v@.take(6)[5] == 't');
                }
            }
        }
    }
    r
}

/// Appends `v[lo..hi]` to `out`.
fn push_range(out: &mut Vec<char>, v: &Vec<char>, lo: usize, hi: usize)
    requires
        lo <= hi <= v.len(),
    ensures
        final(out)@ == old(out)@ + v@.subrange(lo as int, hi as int),
{
    let mut i: usize = lo;
    while i < hi
        invariant
            lo <= i <= hi <= v.len(),
            out@ == old(out)@ + v@.subrange(lo as int, i as int),
        decreases hi - i,
    {
        out.push(v[i]);
        assert(v@.subrange(lo as int, i + 1) == v@.subrange(lo as int, i as int).push(v@[i as int]));
        i = i + 1;
    }
}

/// The alias form of a line with a quoted specifier.
fn alias_of(v: &Vec<char>) -> (r: Vec<char>)
    requires
        has_quoted_specifier(v@),
    ensures
        r@ == alias_form(v@),
{
    let q1 = find_quote(v, 0);
    let q2 = find_quote(v, q1 + 1);
    let q3 = if q2 < v.len() {
        find_quote(v, q2 + 1)
    } else {
        q2
    };
    let mut out: Vec<char> = Vec::new();
    push_range(&mut out, v, 0, q1);
    assert(v@.subrange(0, q1 as int) == v@.take(q1 as int));
    out.push('\'');
    out.push('@');
    out.push('/');
    let cleaned = remove_ascents(v, q1 + 1, q2);
    let mut i: usize = 0;
    let ghost before = out@;
    while i < cleaned.len()
        invariant
            i <= cleaned.len(),
            out@ == before + cleaned@.take(i as int),
        decreases cleaned.len() - i,
    {
        out.push(cleaned[i]);
        assert(cleaned@.take(i + 1) == cleaned@.take(i as int).push(cleaned@[i as int]));
        i = i + 1;
    }
    assert(cleaned@.take(i as int) == cleaned@);
    out.push('\'');
    push_range(&mut out, v, q2 + 1, q3);
    assert(out@ == alias_form(v@));
    out
}

/// What a line of characters becomes at depth `depth`.
fn rewrite_chars(v: &Vec<char>, depth: usize) -> (r: LineRewrite)
    ensures
        outcome_matches(r, v@, depth as nat),
{
    if !starts_with_keyword(v) {
        return LineRewrite::Unchanged;
    }
    let ascent = ascent_of(v);
    if ascent == 0 || ascent != depth {
        return LineRewrite::Unchanged;
    }
    let q1 = find_quote(v, 0);
    if q1 >= v.len() {
        return LineRewrite::Malformed;
    }
    let q2 = find_quote(v, q1 + 1);
    if q2 >= v.len() {
        return LineRewrite::Malformed;
    }
    let out = alias_of(v);
    LineRewrite::Rewritten(string_of(&out))
}

/// Decides the fate of one line of a file at depth `file_depth` below `src`.
/// A line is rewritten exactly when it starts with `import` and its ascent
/// depth is positive and equal to `file_depth`; a line due for a rewrite
/// without a quoted module path is reported and kept.
pub fn rewrite_line(line: &str, file_depth: usize) -> (r: LineRewrite)
    ensures
        outcome_matches(r, line@, file_depth as nat),
{
    let v = chars_of(line);
    rewrite_chars(&v, file_depth)
}

/// Whether some line of `ls` is rewritten at depth `depth`.
pub open spec fn rewrites_some_line(ls: Seq<Seq<char>>, depth: nat) -> bool {
    exists|i: int| 0 <= i < ls.len() && rewrite_due(#[trigger] ls[i], depth) && has_quoted_specifier(ls[i])
}

/// The lines of `ls` after the rewrite at depth `depth`.
pub open spec fn lines_after(ls: Seq<Seq<char>>, depth: nat) -> Seq<Seq<char>> {
    ls.map_values(|l: Seq<char>| line_after(l, depth))
}

/// What the content `c` of a file at depth `depth` becomes: its rewritten
/// lines joined by single line feeds.
pub open spec fn content_after(c: Seq<char>, depth: nat) -> Seq<char> {
    join_lines(lines_after(lines_of(c), depth))
}

/// The result of rewriting one file's content.
#[derive(Debug)]
pub struct FileRewrite {
    /// The lines of the content, as read.
    pub lines: Vec<String>,
    /// The outcome for each line, in the same order.
    pub outcomes: Vec<LineRewrite>,
    /// The new content, where some line was rewritten.
    pub new_content: Option<String>,
}

/// Rewrites the content of a file at depth `file_depth` below `src`: each
/// line is decided by `rewrite_line`, and where some line was rewritten the
/// new content is the lines joined by single line feeds.
pub fn rewrite_content(content: &str, file_depth: usize) -> (r: FileRewrite)
    ensures
        string_views(r.lines@) == lines_of(content@),
        r.outcomes@.len() == r.lines@.len(),
        forall|i: int|
            0 <= i < r.outcomes@.len() ==> outcome_matches(
                #[trigger] r.outcomes@[i],
                lines_of(content@)[i],
                file_depth as nat,
            ),
        r.new_content is Some <==> rewrites_some_line(lines_of(content@), file_depth as nat),
        r.new_content is Some ==> r.new_content->0@ == content_after(content@, file_depth as nat),
{
    let chars = chars_of(content);
    let src_lines = split_lines(&chars);
    let ghost ls = lines_of(content@);
    let mut lines: Vec<String> = Vec::new();
    let mut outcomes: Vec<LineRewrite> = Vec::new();
    let mut new_lines: Vec<Vec<char>> = Vec::new();
    let mut changed = false;
    let mut i: usize = 0;
    while i < src_lines.len()
        invariant
            i <= src_lines.len(),
            char_views(src_lines@) == ls,
            string_views(lines@) == ls.take(i as int),
            outcomes@.len() == i,
            forall|k: int|
                0 <= k < i ==> outcome_matches(#[trigger] outcomes@[k], ls[k], file_depth as nat),
            char_views(new_lines@) == lines_after(ls, file_depth as nat).take(i as int),
            changed <==> rewrites_some_line(ls.take(i as int), file_depth as nat),
        decreases src_lines.len() - i,
    {
        let line = &src_lines[i];
        assert(line@ == ls[i as int]);
        let outcome = rewrite_chars(line, file_depth);
        let mut next: Vec<char> = Vec::new();
        let due = match &outcome {
            LineRewrite::Rewritten(_) => true,
            _ => false,
        };
        if due {
            next = alias_of(line);
        } else {
            push_range(&mut next, line, 0, line.len());
            assert(line@.subrange(0, line@.len() as int) == line@);
        }
        let ghost prev_lines = lines@;
        let ghost prev_new = new_lines@;
        lines.push(string_of(line));
        outcomes.push(outcome);
        new_lines.push(next);
        assert(string_views(lines@) == string_views(prev_lines).push(ls[i as int]));
        assert(ls.take(i + 1) == ls.take(i as int).push(ls[i as int]));
        assert(char_views(new_lines@) == char_views(prev_new).push(line_after(ls[i as int], file_depth as nat)));
        assert(lines_after(ls, file_depth as nat).take(i + 1) == lines_after(ls, file_depth as nat).take(i as int).push(line_after(ls[i as int], file_depth as nat)));
        if due {
            assert(rewrite_due(ls.take(i + 1)[i as int], file_depth as nat));
            changed = true;
        } else {
            proof {
            if rewrites_some_line(ls.take(i + 1), file_depth as nat) {
                let k = choose|k: int| 0 <= k < ls.take(i + 1).len() && rewrite_due(#[trigger] ls.take(i + 1)[k], file_depth as nat) && has_quoted_specifier(ls.take(i + 1)[k]);
                assert(k < i);
                assert(ls.take(i as int)[k] == ls.take(i + 1)[k]);
            }
            if changed {
                let k = choose|k: int| 0 <= k < ls.take(i as int).len() && rewrite_due(#[trigger] ls.take(i as int)[k], file_depth as nat) && has_quoted_specifier(ls.take(i as int)[k]);
                assert(ls.take(i as int)[k] == ls.take(i + 1)[k]);
            }
            }
        }
        i = i + 1;
    }
    assert(ls.take(i as int) == ls);
    assert(lines_after(ls, file_depth as nat).take(i as int) == lines_after(ls, file_depth as nat));
    let new_content = if changed {
        let joined = join(&new_lines);
        Some(string_of(&joined))
    } else {
        None
    };
    FileRewrite { lines, outcomes, new_content }
}

/// A text with no ascent segment anywhere has ascent count 0.
pub proof fn lemma_no_segment_no_ascent(s: Seq<char>)
    requires
        forall|i: int|
            0 <= i && i + 3 <= s.len() ==> !(#[trigger] s[i] == '.' && s[i + 1] == '.' && s[i + 2]
                == '/'),
    ensures
        ascent_count(s) == 0,
    decreases s.len(),
{
    if s.len() >= 3 {
        assert(s[0] == '.' ==> !(s[1] == '.' && s[2] == '/'));
        assert(s.take(3) != ascent_segment()) by {
            if s.take(3) == ascent_segment() {
                assert(s.take(3)[0] == s[0] && s.take(3)[1] == s[1] && s.take(3)[2] == s[2]);
            }
        }
        let t = s.skip(1);
        assert forall|i: int| 0 <= i && i + 3 <= t.len() implies !(#[trigger] t[i] == '.' && t[i
            + 1] == '.' && t[i + 2] == '/') by {
            assert(t[i] == s[i + 1] && t[i + 1] == s[i + 2] && t[i + 2] == s[i + 3]);
            assert(s[i + 1] == '.' ==> !(s[i + 2] == '.' && s[i + 3] == '/'));
        }
        lemma_no_segment_no_ascent(t);
    }
}

/// A line that is not due for a rewrite stays exactly as it is; a line with
/// a quoted module path is rewritten exactly when it starts with `import` and
/// its ascent depth is positive and equal to the file's depth.
pub proof fn lemma_rewrite_gate(r: LineRewrite, l: Seq<char>, depth: nat)
    requires
        outcome_matches(r, l, depth),
    ensures
        !rewrite_due(l, depth) ==> line_after(l, depth) == l && r is Unchanged,
        has_quoted_specifier(l) ==> ((r is Rewritten) <==> (starts_with_import(l) && import_ascent(l)
            > 0 && import_ascent(l) == depth)),
{
}

/// The last token of `x + y` is `y` where `y` is a non-empty run without
/// whitespace and `x` is empty or ends in whitespace.
proof fn lemma_last_token_of_suffix(x: Seq<char>, y: Seq<char>)
    requires
        y.len() > 0,
        forall|k: int| 0 <= k < y.len() ==> !is_white_space(#[trigger] y[k]),
        x.len() == 0 || is_white_space(x.last()),
    ensures
        last_token(x + y) == y,
{
    assert((x + y).last() == y.last());
    assert(trim_end_white(x + y) == x + y);
    lemma_last_run_of_suffix(x, y);
}

proof fn lemma_last_run_of_suffix(x: Seq<char>, y: Seq<char>)
    requires
        forall|k: int| 0 <= k < y.len() ==> !is_white_space(#[trigger] y[k]),
        x.len() == 0 || is_white_space(x.last()),
    ensures
        last_run(x + y) == y,
    decreases y.len(),
{
    if y.len() == 0 {
        assert(x + y == x);
    } else {
        assert((x + y).last() == y.last());
        assert((x + y).drop_last() == x + y.drop_last());
        lemma_last_run_of_suffix(x, y.drop_last());
        assert(y.drop_last().push(y.last()) == y);
    }
}

/// A leading character other than `.` adds no ascent segment.
proof fn lemma_ascent_after_char(c: char, s: Seq<char>)
    requires
        c != '.',
    ensures
        ascent_count(seq![c] + s) == ascent_count(s),
{
    let t = seq![c] + s;
    if t.len() >= 3 {
        assert(t.take(3)[0] == c);
        assert(t.take(3) != ascent_segment());
        assert(t.skip(1) == s);
    }
}

/// A character that is neither `.` nor `/` splits the ascent count.
proof fn lemma_ascent_split(a: Seq<char>, q: char, b: Seq<char>)
    requires
        q != '.',
        q != '/',
    ensures
        ascent_count(a + seq![q] + b) == ascent_count(a) + ascent_count(b),
    decreases a.len(),
{
    let t = a + seq![q] + b;
    if a.len() == 0 {
        assert(t == seq![q] + b);
        lemma_ascent_after_char(q, b);
    } else if a.len() >= 3 {
        assert(t.take(3) == a.take(3));
        if a.take(3) == ascent_segment() {
            assert(t.skip(3) == a.skip(3) + seq![q] + b);
            lemma_ascent_split(a.skip(3), q, b);
        } else {
            assert(t.skip(1) == a.skip(1) + seq![q] + b);
            lemma_ascent_split(a.skip(1), q, b);
        }
    } else {
        if t.len() >= 3 {
            assert(t.take(3)[a.len() as int] == q);
            assert(t.take(3) != ascent_segment());
            assert(t.skip(1) == a.skip(1) + seq![q] + b);
            lemma_ascent_split(a.skip(1), q, b);
        }
    }
}

/// Rewriting is idempotent on import lines of the usual shape: where the
/// module path is preceded by whitespace, and the cleaned module path and the
/// text after it hold no whitespace and no ascent segment, the rewritten line
/// stays as it is when it is rewritten again at the same depth.
pub proof fn lemma_rewrite_idempotent(l: Seq<char>, depth: nat)
    requires
        rewrite_due(l, depth),
        has_quoted_specifier(l),
        head_part(l).len() > 0 && is_white_space(head_part(l).last()),
        forall|k: int|
            0 <= k < strip_ascents(specifier_part(l)).len() ==> !is_white_space(
                #[trigger] strip_ascents(specifier_part(l))[k],
            ),
        forall|k: int| 0 <= k < tail_part(l).len() ==> !is_white_space(#[trigger] tail_part(l)[k]),
        ascent_count(strip_ascents(specifier_part(l))) == 0,
        ascent_count(tail_part(l)) == 0,
    ensures
        line_after(alias_form(l), depth) == alias_form(l),
{
    let h = head_part(l);
    let c = strip_ascents(specifier_part(l));
    let t = tail_part(l);
    let rest = c + seq!['\''] + t;
    let y = seq!['\''] + (seq!['@'] + (seq!['/'] + rest));
    assert(alias_form(l) == h + y);
    assert forall|k: int| 0 <= k < y.len() implies !is_white_space(#[trigger] y[k]) by {
        if k >= 3 {
            assert(y[k] == rest[k - 3]);
            if k - 3 >= c.len() + 1 {
                assert(rest[k - 3] == t[k - 3 - c.len() - 1]);
            } else if k - 3 < c.len() {
                assert(rest[k - 3] == c[k - 3]);
            }
        }
    }
    lemma_last_token_of_suffix(h, y);
    lemma_ascent_split(c, '\'', t);
    lemma_ascent_after_char('/', rest);
    lemma_ascent_after_char('@', seq!['/'] + rest);
    lemma_ascent_after_char('\'', seq!['@'] + (seq!['/'] + rest));
    assert(import_ascent(alias_form(l)) == 0);
}

} // verus!
