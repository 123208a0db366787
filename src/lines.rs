//! Splitting a chunk into its visual lines and dropping those without
//! visible content.
use crate::text::{
    alphabetic, contains, contains_chars, chars_of, is_alpha, is_whitespace, is_ws, matches_at,
    push_all, push_range, push_vec, same_chars, trim_end, trim_end_chars, views,
};
use vstd::prelude::*;

verus! {

/// The lines of `s` from position `i` on, the current one starting at
/// `start`, appended to `acc`; each line keeps its newline.
pub open spec fn split_from(s: Seq<char>, i: int, start: int, acc: Seq<Seq<char>>) -> Seq<
    Seq<char>,
>
    decreases s.len() - i,
{
    if i < 0 || i >= s.len() {
        if start < s.len() {
            acc.push(s.subrange(start, s.len() as int))
        } else {
            acc
        }
    } else if s[i] == '\n' {
        split_from(s, i + 1, i + 1, acc.push(s.subrange(start, i + 1)))
    } else {
        split_from(s, i + 1, start, acc)
    }
}

/// The lines of `s`, each with its newline.
pub open spec fn split_lines(s: Seq<char>) -> Seq<Seq<char>> {
    split_from(s, 0, 0, Seq::empty())
}

/// Lines `j..` of `ls` with comment-only lines dropped and bare
/// continuation lines normalised, appended to `acc`.
pub open spec fn filter_from(ls: Seq<Seq<char>>, j: int, acc: Seq<Seq<char>>) -> Seq<Seq<char>>
    decreases ls.len() - j,
{
    if j < 0 || j >= ls.len() {
        acc
    } else if trim_end(ls[j]) == "%"@ {
        filter_from(ls, j + 1, acc)
    } else if trim_end(ls[j]) == "\\"@ {
        filter_from(ls, j + 1, acc.push("\\ %\n"@))
    } else {
        filter_from(ls, j + 1, acc.push(ls[j]))
    }
}

/// Whether a line ends a group: it holds a newline escape or closes a text block.
pub open spec fn ends_group(line: Seq<char>) -> bool {
    contains(line, "\\isanewline"@) || contains(line, "\\end{isamarkuptext}"@)
}

/// Whether a line opens a text block.
pub open spec fn opens_text(line: Seq<char>) -> bool {
    contains(line, "\\begin{isamarkuptext}"@)
}

/// Whether a line holds rendering markup other than the suppressed kind.
pub open spec fn is_markup(line: Seq<char>) -> bool {
    contains(line, "\\isamarkup"@) && !contains(line, "\\isamarkupfalse"@)
}

/// Groups lines `j..` of `ls`, `cur` being the open group, after `res`.
pub open spec fn group_from(ls: Seq<Seq<char>>, j: int, cur: Seq<char>, res: Seq<Seq<char>>) -> Seq<
    Seq<char>,
>
    decreases ls.len() - j,
{
    if j < 0 || j >= ls.len() || (!ends_group(ls[j]) && !opens_text(ls[j]) && is_markup(ls[j])) {
        if cur.len() > 0 {
            res.push(cur)
        } else {
            res
        }
    } else if ends_group(ls[j]) {
        group_from(ls, j + 1, Seq::empty(), res.push(cur + ls[j]))
    } else if opens_text(ls[j]) {
        group_from(ls, j + 1, ls[j], if cur.len() > 0 { res.push(cur) } else { res })
    } else {
        group_from(ls, j + 1, cur + ls[j], res)
    }
}

/// Whether a group shows anything: an escaped character, symbol, command
/// or cartouche, or a letter at the start or after whitespace.
pub open spec fn visible(s: Seq<char>) -> bool {
    contains(s, "\\isachar"@) || contains(s, "\\isasym"@) || contains(s, "\\isacommand"@)
        || contains(s, "\\isacartouche"@) || exists|j: int|
        0 <= j < s.len() && alphabetic(#[trigger] s[j]) && (j == 0 || is_ws(s[j - 1]))
}

/// `s` with every trailing copy of `p` removed.
pub open spec fn strip_suffixes(s: Seq<char>, p: Seq<char>) -> Seq<char>
    decreases s.len(),
{
    if p.len() > 0 && p.len() <= s.len() && s.subrange(s.len() - p.len(), s.len() as int) == p {
        strip_suffixes(s.subrange(0, s.len() - p.len()), p)
    } else {
        s
    }
}

/// A retained last group without its trailing newline escapes.
pub open spec fn strip_newlines(s: Seq<char>) -> Seq<char> {
    strip_suffixes(strip_suffixes(s, "\\isanewline"@), "\\isanewline\n"@)
}

/// `gs` without its trailing invisible groups, the last one kept without
/// its trailing newline escapes (and dropped if nothing else is left of it).
pub open spec fn strip_tail(gs: Seq<Seq<char>>) -> Seq<Seq<char>>
    decreases gs.len(),
{
    if gs.len() == 0 {
        gs
    } else if visible(gs.last()) {
        if strip_newlines(gs.last()).len() > 0 {
            gs.drop_last().push(strip_newlines(gs.last()))
        } else {
            gs.drop_last()
        }
    } else {
        strip_tail(gs.drop_last())
    }
}

/// The visual lines of a chunk.
pub open spec fn lines_of(c: Seq<char>) -> Seq<Seq<char>> {
    let groups = group_from(filter_from(split_lines(c), 0, Seq::empty()), 0, Seq::empty(), Seq::empty());
    strip_tail(groups).map_values(|g: Seq<char>| trim_end(g))
}

/// Splits `c` after each newline.
pub fn split_at_newlines(c: &Vec<char>) -> (r: Vec<Vec<char>>)
    ensures
        views(r@) == split_lines(c@),
{
    let mut res: Vec<Vec<char>> = Vec::new();
    let mut start: usize = 0;
    let mut i: usize = 0;
    let ghost empty: Seq<Seq<char>> = Seq::empty();
    assert(views(res@) =~= empty);
    while i < c.len()
        invariant
            start <= i <= c@.len(),
            split_from(c@, i as int, start as int, views(res@)) == split_lines(c@),
        decreases c@.len() - i,
    {
        if c[i] == '\n' {
            let mut line = Vec::new();
            push_range(&mut line, c, start, i + 1);
            assert(line@ =~= c@.subrange(start as int, i + 1));
            push_vec(&mut res, line);
            start = i + 1;
        }
        i += 1;
    }
    if start < c.len() {
        let mut line = Vec::new();
        push_range(&mut line, c, start, c.len());
        assert(line@ =~= c@.subrange(start as int, c@.len() as int));
        push_vec(&mut res, line);
    }
    res
}

/// Drops comment-only lines and normalises bare continuation lines.
pub fn filter_lines(ls: &Vec<Vec<char>>) -> (r: Vec<Vec<char>>)
    ensures
        views(r@) == filter_from(views(ls@), 0, Seq::empty()),
{
    let percent = chars_of("%");
    let backslash = chars_of("\\");
    let continued = chars_of("\\ %\n");
    let mut res: Vec<Vec<char>> = Vec::new();
    let mut j: usize = 0;
    let ghost empty: Seq<Seq<char>> = Seq::empty();
    assert(views(res@) =~= empty);
    while j < ls.len()
        invariant
            j <= ls@.len(),
            percent@ == "%"@,
            backslash@ == "\\"@,
            continued@ == "\\ %\n"@,
            filter_from(views(ls@), j as int, views(res@)) == filter_from(views(ls@), 0, empty),
        decreases ls@.len() - j,
    {
        let t = trim_end_chars(&ls[j]);
        if same_chars(&t, &percent) {
        } else if same_chars(&t, &backslash) {
            push_vec(&mut res, continued.clone());
        } else {
            push_vec(&mut res, ls[j].clone());
        }
        j += 1;
    }
    res
}

/// Concatenation of `a` and `b`.
fn joined(a: &Vec<char>, b: &Vec<char>) -> (r: Vec<char>)
    ensures
        r@ == a@ + b@,
{
    let mut r = a.clone();
    push_all(&mut r, b);
    r
}

/// Groups lines: a newline escape or the end of a text block closes a
/// group, the start of a text block opens one, and rendering markup ends
/// the chunk.
pub fn group_lines(ls: &Vec<Vec<char>>) -> (r: Vec<Vec<char>>)
    ensures
        views(r@) == group_from(views(ls@), 0, Seq::empty(), Seq::empty()),
{
    let nl = chars_of("\\isanewline");
    let end_text = chars_of("\\end{isamarkuptext}");
    let begin_text = chars_of("\\begin{isamarkuptext}");
    let markup = chars_of("\\isamarkup");
    let markup_false = chars_of("\\isamarkupfalse");
    let mut res: Vec<Vec<char>> = Vec::new();
    let mut cur: Vec<char> = Vec::new();
    let mut j: usize = 0;
    let ghost empty: Seq<Seq<char>> = Seq::empty();
    assert(views(res@) =~= empty);
    assert(cur@ =~= Seq::<char>::empty());
    while j < ls.len()
        invariant
            j <= ls@.len(),
            nl@ == "\\isanewline"@,
            end_text@ == "\\end{isamarkuptext}"@,
            begin_text@ == "\\begin{isamarkuptext}"@,
            markup@ == "\\isamarkup"@,
            markup_false@ == "\\isamarkupfalse"@,
            group_from(views(ls@), j as int, cur@, views(res@)) == group_from(
                views(ls@),
                0,
                Seq::empty(),
                Seq::empty(),
            ),
        ensures
            group_from(views(ls@), j as int, cur@, views(res@)) == group_from(
                views(ls@),
                0,
                Seq::empty(),
                Seq::empty(),
            ),
            j < ls@.len() ==> !ends_group(ls@[j as int]@) && !opens_text(ls@[j as int]@)
                && is_markup(ls@[j as int]@),
        decreases ls@.len() - j,
    {
        let line = &ls[j];
        assert(views(ls@)[j as int] == line@);
        if contains_chars(line, &nl) || contains_chars(line, &end_text) {
            let g = joined(&cur, line);
            push_vec(&mut res, g);
            cur = Vec::new();
            assert(cur@ =~= Seq::<char>::empty());
        } else if contains_chars(line, &begin_text) {
            if cur.len() > 0 {
                push_vec(&mut res, cur);
            }
            cur = line.clone();
        } else if contains_chars(line, &markup) && !contains_chars(line, &markup_false) {
            break;
        } else {
            cur = joined(&cur, line);
        }
        j += 1;
    }
    if cur.len() > 0 {
        push_vec(&mut res, cur);
    }
    res
}

/// Whether a group shows anything: an escaped character, symbol, command
/// or cartouche, or a letter at the start or after whitespace.
pub fn has_visible_content(s: &Vec<char>) -> (r: bool)
    ensures
        r == visible(s@),
{
    if contains_chars(s, &chars_of("\\isachar")) || contains_chars(s, &chars_of("\\isasym"))
        || contains_chars(s, &chars_of("\\isacommand")) || contains_chars(
        s,
        &chars_of("\\isacartouche"),
    ) {
        return true;
    }
    let mut j: usize = 0;
    while j < s.len()
        invariant
            j <= s@.len(),
            forall|t: int|
                0 <= t < j ==> !(alphabetic(#[trigger] s@[t]) && (t == 0 || is_ws(s@[t - 1]))),
        decreases s@.len() - j,
    {
        let after_space = j == 0 || is_whitespace(s[j - 1]);
        if after_space && is_alpha(s[j]) {
            return true;
        }
        j += 1;
    }
    false
}

/// `s` with every trailing copy of `p` removed.
fn strip_suffixes_of(s: &Vec<char>, p: &Vec<char>) -> (r: Vec<char>)
    ensures
        r@ == strip_suffixes(s@, p@),
{
    let mut e = s.len();
    assert(s@.subrange(0, e as int) =~= s@);
    while p.len() > 0 && p.len() <= e && matches_at(s, e - p.len(), p)
        invariant
            e <= s@.len(),
            strip_suffixes(s@.subrange(0, e as int), p@) == strip_suffixes(s@, p@),
        decreases e,
    {
        let ghost t = s@.subrange(0, e as int);
        assert(t.subrange(t.len() - p@.len(), t.len() as int) =~= s@.subrange(
            e - p@.len(),
            e as int,
        ));
        assert(t.subrange(0, t.len() - p@.len()) =~= s@.subrange(0, e - p@.len()));
        e -= p.len();
    }
    let ghost t = s@.subrange(0, e as int);
    if p.len() > 0 && p.len() <= e {
        assert(t.subrange(t.len() - p@.len(), t.len() as int) =~= s@.subrange(
            e - p@.len(),
            e as int,
        ));
    }
    let mut r = Vec::new();
    push_range(&mut r, s, 0, e);
    assert(r@ =~= t);
    r
}

/// Drops the trailing groups without visible content and the trailing
/// newline escapes of the last one kept.
pub fn strip_trailing(gs: Vec<Vec<char>>) -> (r: Vec<Vec<char>>)
    ensures
        views(r@) == strip_tail(views(gs@)),
{
    let nl = chars_of("\\isanewline");
    let nl_line = chars_of("\\isanewline\n");
    let mut res = gs;
    while res.len() > 0
        invariant
            nl@ == "\\isanewline"@,
            nl_line@ == "\\isanewline\n"@,
            strip_tail(views(res@)) == strip_tail(views(gs@)),
        decreases res@.len(),
    {
        let ghost before = res@;
        let last = res.pop().unwrap();
        assert(views(res@) =~= views(before).drop_last());
        assert(views(before).last() == last@);
        if has_visible_content(&last) {
            let fixed = strip_suffixes_of(&strip_suffixes_of(&last, &nl), &nl_line);
            if fixed.len() > 0 {
                push_vec(&mut res, fixed);
            }
            return res;
        }
    }
    res
}

/// The visual lines of a chunk: split at newlines, filtered, grouped,
/// stripped of trailing invisible groups, each right-trimmed.
pub fn line_chunk(c: &Vec<char>) -> (r: Vec<Vec<char>>)
    ensures
        views(r@) == lines_of(c@),
{
    let split = split_at_newlines(c);
    let filtered = filter_lines(&split);
    let groups = group_lines(&filtered);
    let kept = strip_trailing(groups);
    let mut res: Vec<Vec<char>> = Vec::new();
    let mut j: usize = 0;
    while j < kept.len()
        invariant
            j <= kept@.len(),
            views(res@) == views(kept@).subrange(0, j as int).map_values(
                |g: Seq<char>| trim_end(g),
            ),
        decreases kept@.len() - j,
    {
        let t = trim_end_chars(&kept[j]);
        push_vec(&mut res, t);
        j += 1;
        assert(views(res@) =~= views(kept@).subrange(0, j as int).map_values(
            |g: Seq<char>| trim_end(g),
        ));
    }
    assert(views(kept@).subrange(0, j as int) =~= views(kept@));
    res
}

} // verus!
