//! Lifting cartouches out of lines, naming snippets and assembling the
//! output document.
use crate::ident::{chunk_theory, chunks, cmd_chunk, command_of, name_chunk, name_of};
use crate::lines::{line_chunk, lines_of};
use crate::scan::{find_cmd, read_until_cmd, skip_char, skip_to};
use crate::text::{
    chars_of, decimal, decimal_of, matches_at, occurs_at, push_all, push_range, push_vec,
    same_chars, string_of, views, bounded_len,
};
use vstd::prelude::*;

verus! {

/// The cartouche bodies of `start`, whose closing escapes are looked for in
/// `full`, from position `i` on, appended to `acc`.
pub open spec fn lift_from(start: Seq<char>, full: Seq<char>, i: int, acc: Seq<Seq<char>>) -> Seq<
    Seq<char>,
>
    decreases full.len() + start.len() + 3 - i,
{
    match find_cmd(start, i, "isacartoucheopen"@, false) {
        Some(j) => {
            let b = skip_to(start, j, '}');
            match find_cmd(full, b, "isacartoucheclose"@, false) {
                Some(k) => {
                    let body = if b <= k - 1 {
                        full.subrange(b, k - 1)
                    } else {
                        Seq::empty()
                    };
                    let next = skip_to(full, k, '}') + 1;
                    if i < next <= full.len() + start.len() + 3 {
                        lift_from(start, full, next, acc.push(body))
                    } else {
                        acc.push(body)
                    }
                },
                None => if i < b <= full.len() + start.len() + 3 {
                    lift_from(start, full, b, acc)
                } else {
                    acc
                },
            }
        },
        None => acc,
    }
}

/// `s` with each underscore turned into a hyphen.
pub open spec fn escape(s: Seq<char>) -> Seq<char> {
    s.map_values(|c: char| if c == '_' { '-' } else { c })
}

/// `s` with the non-overlapping occurrences of `pat` from position `i` on
/// replaced, left to right, by `rep`, appended to `acc`.
pub open spec fn replace_from(s: Seq<char>, pat: Seq<char>, rep: Seq<char>, i: int, acc: Seq<char>) -> Seq<
    char,
>
    decreases s.len() - i,
{
    if i < 0 || i >= s.len() {
        acc
    } else if pat.len() > 0 && occurs_at(s, i, pat) {
        replace_from(s, pat, rep, i + pat.len(), acc + rep)
    } else {
        replace_from(s, pat, rep, i + 1, acc.push(s[i]))
    }
}

/// `s` with every occurrence of `pat` replaced by `rep`.
pub open spec fn replace(s: Seq<char>, pat: Seq<char>, rep: Seq<char>) -> Seq<char> {
    replace_from(s, pat, rep, 0, Seq::empty())
}

/// One output block: the snippet's name and body, each line closed by a
/// comment marker.
pub open spec fn block(name: Seq<char>, body: Seq<char>) -> Seq<char> {
    "\\SNIP{"@ + name + "}{%\n"@ + body + "%\n}%\n"@
}

/// A cartouche as it stands in a line.
pub open spec fn quoted(body: Seq<char>) -> Seq<char> {
    "{\\isacartoucheopen}"@ + body + "{\\isacartoucheclose}"@
}

/// The reference that replaces cartouche `k` of line `i` of a chunk.
pub open spec fn placeholder(prefix: Seq<char>, i: nat, k: nat) -> Seq<char> {
    "{\\Cartouche{"@ + prefix + "}{"@ + decimal(i) + "}{"@ + decimal(k) + "}}"@
}

/// The lines `i..` of `ls` joined.
pub open spec fn concat_from(ls: Seq<Seq<char>>, i: int) -> Seq<char>
    decreases ls.len() - i,
{
    if i < 0 || i >= ls.len() {
        Seq::empty()
    } else {
        ls[i] + concat_from(ls, i + 1)
    }
}

/// After `acc`: the blocks of cartouches `k..` of line `i`, then the
/// line's own block with every cartouche replaced by its reference.
pub open spec fn line_output(
    prefix: Seq<char>,
    line_name: Seq<char>,
    i: nat,
    carts: Seq<Seq<char>>,
    k: nat,
    lifted: Seq<char>,
    acc: Seq<char>,
) -> Seq<char>
    decreases carts.len() - k,
{
    if k >= carts.len() {
        acc + block(line_name, lifted)
    } else {
        line_output(
            prefix,
            line_name,
            i,
            carts,
            k + 1,
            replace(lifted, quoted(carts[k as int]), placeholder(prefix, i, k)),
            acc + block(line_name + "-"@ + decimal(k), carts[k as int]),
        )
    }
}

/// The name of line `i` of the chunk whose identifier is `prefix`.
pub open spec fn line_name(prefix: Seq<char>, i: nat) -> Seq<char> {
    prefix + "-"@ + decimal(i)
}

/// The cartouches lifted out of line `i` of `ls`.
pub open spec fn line_cartouches(ls: Seq<Seq<char>>, i: int) -> Seq<Seq<char>> {
    lift_from(ls[i], concat_from(ls, i), 0, Seq::empty())
}

/// After `acc`: the blocks of lines `i..` of `ls`.
pub open spec fn lines_output(prefix: Seq<char>, ls: Seq<Seq<char>>, i: nat, acc: Seq<char>) -> Seq<
    char,
>
    decreases ls.len() - i,
{
    if i >= ls.len() {
        acc
    } else {
        lines_output(
            prefix,
            ls,
            i + 1,
            line_output(
                prefix,
                line_name(prefix, i),
                i,
                line_cartouches(ls, i as int),
                0,
                ls[i as int],
                acc,
            ),
        )
    }
}

/// How many entries of `seen` equal `x`.
pub open spec fn count_of(seen: Seq<Seq<char>>, x: Seq<char>) -> nat
    decreases seen.len(),
{
    if seen.len() == 0 {
        0
    } else {
        count_of(seen.drop_last(), x) + if seen.last() == x {
            1nat
        } else {
            0nat
        }
    }
}

/// `command:name` of a chunk.
pub open spec fn raw_id(c: Seq<char>) -> Seq<char> {
    command_of(c) + ":"@ + name_of(c)
}

/// The identifier of a chunk whose raw identifier came `n` times before.
pub open spec fn chunk_id(raw: Seq<char>, n: nat) -> Seq<char> {
    if n > 0 {
        escape(raw + "-"@ + decimal(n))
    } else {
        escape(raw)
    }
}

/// The identifier, with the theory prefix when there is one.
pub open spec fn chunk_prefix(theory: Seq<char>, raw: Seq<char>, n: nat) -> Seq<char> {
    if theory.len() > 0 {
        escape(theory) + ":"@ + chunk_id(raw, n)
    } else {
        chunk_id(raw, n)
    }
}

/// After `acc`: the blocks of chunks `j..` of `cs`, the raw identifiers of
/// the earlier chunks being `seen`.
pub open spec fn doc_output(
    cs: Seq<Seq<char>>,
    theory: Seq<char>,
    j: int,
    seen: Seq<Seq<char>>,
    acc: Seq<char>,
) -> Seq<char>
    decreases cs.len() - j,
{
    if j < 0 || j >= cs.len() {
        acc
    } else {
        let raw = raw_id(cs[j]);
        doc_output(
            cs,
            theory,
            j + 1,
            seen.push(raw),
            lines_output(chunk_prefix(theory, raw, count_of(seen, raw)), lines_of(cs[j]), 0, acc),
        )
    }
}

/// The snippets of a document: the blocks of every chunk after the preamble.
pub open spec fn extract(doc: Seq<char>, theory: Seq<char>) -> Seq<char> {
    doc_output(chunks(doc), theory, 1, Seq::empty(), Seq::empty())
}

proof fn lemma_find_in_range(s: Seq<char>, i: int, goal: Seq<char>, gated: bool)
    requires
        0 <= i,
    ensures
        find_cmd(s, i, goal, gated) matches Some(k) ==> i <= k < s.len(),
    decreases s.len() + 1 - i,
{
    if 0 <= i < s.len() && s[i] == '\\' {
        if !(i + 1 < s.len() && s[i + 1] == ' ' && goal == seq![' ']) {
            let e = crate::scan::word_end(s, i + 1);
            let hit = s.subrange(i + 1, e) == goal;
            if !(hit && (!gated || crate::scan::gate_ok(s, e + 1))) {
                let next = e;
                if crate::scan::advances(s, i, next) {
                    lemma_find_in_range(s, next, goal, gated);
                }
            }
        }
    } else if 0 <= i < s.len() {
        lemma_find_in_range(s, i + 1, goal, gated);
    }
}

/// The cartouche bodies of `start`: for each cartouche that opens in
/// `start`, the text up to its closing escape, looked for in `full`.
pub fn lift_cartouches(start: &Vec<char>, full: &Vec<char>) -> (r: Vec<Vec<char>>)
    requires
        start@.len() <= full@.len(),
        full@.len() <= isize::MAX,
    ensures
        views(r@) == lift_from(start@, full@, 0, Seq::empty()),
{
    let open = chars_of("isacartoucheopen");
    let close = chars_of("isacartoucheclose");
    let mut res: Vec<Vec<char>> = Vec::new();
    let mut i: usize = 0;
    let ghost empty: Seq<Seq<char>> = Seq::empty();
    assert(views(res@) =~= empty);
    while i <= start.len()
        invariant
            i <= full@.len() + 2,
            start@.len() <= full@.len(),
            full@.len() <= isize::MAX,
            open@ == "isacartoucheopen"@,
            close@ == "isacartoucheclose"@,
            lift_from(start@, full@, i as int, views(res@)) == lift_from(
                start@,
                full@,
                0,
                empty,
            ),
        ensures
            lift_from(start@, full@, i as int, views(res@)) == lift_from(
                start@,
                full@,
                0,
                empty,
            ),
            lift_from(start@, full@, i as int, views(res@)) == views(res@),
        decreases full@.len() + start@.len() + 3 - i,
    {
        match read_until_cmd(start, i, &open, false) {
            Some(j) => {
                let b = skip_char(start, j, '}');
                match read_until_cmd(full, b, &close, false) {
                    Some(k) => {
                        let mut body = Vec::new();
                        if b <= k - 1 {
                            push_range(&mut body, full, b, k - 1);
                        }
                        assert(body@ =~= (if b <= k - 1 {
                            full@.subrange(b as int, k - 1)
                        } else {
                            Seq::empty()
                        }));
                        push_vec(&mut res, body);
                        i = skip_char(full, k, '}') + 1;
                    },
                    None => {
                        i = b;
                    },
                }
            },
            None => {
                break;
            },
        }
    }
    proof {
        if i > start.len() {
            lemma_find_in_range(start@, i as int, "isacartoucheopen"@, false);
        }
    }
    res
}

/// `s` with each underscore turned into a hyphen.
pub fn escape_underscores(s: &Vec<char>) -> (r: Vec<char>)
    ensures
        r@ == escape(s@),
{
    let mut r = Vec::new();
    let mut j: usize = 0;
    while j < s.len()
        invariant
            j <= s@.len(),
            r@ == escape(s@.subrange(0, j as int)),
        decreases s@.len() - j,
    {
        r.push(
            if s[j] == '_' {
                '-'
            } else {
                s[j]
            },
        );
        j += 1;
        assert(r@ =~= escape(s@.subrange(0, j as int)));
    }
    assert(s@.subrange(0, j as int) =~= s@);
    r
}

/// `s` with every occurrence of `pat` replaced by `rep`.
pub fn replace_all(s: &Vec<char>, pat: &Vec<char>, rep: &Vec<char>) -> (r: Vec<char>)
    requires
        s@.len() <= isize::MAX,
    ensures
        r@ == replace(s@, pat@, rep@),
{
    let mut r = Vec::new();
    let mut i: usize = 0;
    assert(r@ =~= Seq::<char>::empty());
    while i < s.len()
        invariant
            i <= s@.len() + pat@.len(),
            s@.len() <= isize::MAX,
            replace_from(s@, pat@, rep@, i as int, r@) == replace(s@, pat@, rep@),
        decreases s@.len() - i,
    {
        if pat.len() > 0 && matches_at(s, i, pat) {
            push_all(&mut r, rep);
            i += pat.len();
        } else {
            r.push(s[i]);
            i += 1;
        }
    }
    r
}

/// Appends `lit` to `out`.
fn push_text(out: &mut Vec<char>, lit: &str)
    ensures
        final(out)@ == old(out)@ + lit@,
{
    push_all(out, &chars_of(lit));
}

/// Appends the block of snippet `name` with body `body`.
pub fn begin_snippet(out: &mut Vec<char>, name: &Vec<char>, body: &Vec<char>)
    ensures
        final(out)@ == old(out)@ + block(name@, body@),
{
    push_text(out, "\\SNIP{");
    push_all(out, name);
    push_text(out, "}{%\n");
    push_all(out, body);
    push_text(out, "%\n}%\n");
    assert(out@ =~= old(out)@ + block(name@, body@));
}

/// `left` followed by `lit` and `right`.
fn join_with(left: &Vec<char>, lit: &str, right: &Vec<char>) -> (r: Vec<char>)
    ensures
        r@ == left@ + lit@ + right@,
{
    let mut r = left.clone();
    push_text(&mut r, lit);
    push_all(&mut r, right);
    r
}

/// The reference that replaces cartouche `k` of line `i`.
pub fn cartouche(prefix: &Vec<char>, i: usize, k: usize) -> (r: Vec<char>)
    ensures
        r@ == placeholder(prefix@, i as nat, k as nat),
{
    let mut r = Vec::new();
    push_text(&mut r, "{\\Cartouche{");
    push_all(&mut r, prefix);
    push_text(&mut r, "}{");
    push_all(&mut r, &decimal_of(i));
    push_text(&mut r, "}{");
    push_all(&mut r, &decimal_of(k));
    push_text(&mut r, "}}");
    assert(r@ =~= placeholder(prefix@, i as nat, k as nat));
    r
}

/// Lines `i..` of `ls` joined.
fn concat_lines(ls: &Vec<Vec<char>>, i: usize) -> (r: Vec<char>)
    requires
        i < ls@.len(),
    ensures
        r@ == concat_from(views(ls@), i as int),
        ls@[i as int]@.len() <= r@.len(),
{
    let mut r = Vec::new();
    let mut t = i;
    assert(r@ =~= Seq::<char>::empty());
    while t < ls.len()
        invariant
            i <= t <= ls@.len(),
            i < ls@.len(),
            r@ + concat_from(views(ls@), t as int) == concat_from(views(ls@), i as int),
            t > i ==> ls@[i as int]@.len() <= r@.len(),
        decreases ls@.len() - t,
    {
        assert(views(ls@)[t as int] == ls@[t as int]@);
        let ghost before = r@;
        push_all(&mut r, &ls[t]);
        t += 1;
        assert(r@ + concat_from(views(ls@), t as int) =~= before + concat_from(
            views(ls@),
            t - 1,
        ));
    }
    assert(r@ =~= r@ + concat_from(views(ls@), t as int));
    r
}

/// Appends the blocks of line `i` of `ls`: its cartouches, then the line
/// with each cartouche replaced by its reference.
fn emit_line(out: &mut Vec<char>, prefix: &Vec<char>, ls: &Vec<Vec<char>>, i: usize)
    requires
        i < ls@.len(),
    ensures
        final(out)@ == line_output(
            prefix@,
            line_name(prefix@, i as nat),
            i as nat,
            line_cartouches(views(ls@), i as int),
            0,
            views(ls@)[i as int],
            old(out)@,
        ),
{
    let name = join_with(prefix, "-", &decimal_of(i));
    let rest = concat_lines(ls, i);
    bounded_len(&rest);
    let carts = lift_cartouches(&ls[i], &rest);
    let mut lifted = ls[i].clone();
    let mut k: usize = 0;
    while k < carts.len()
        invariant
            k <= carts@.len(),
            name@ == line_name(prefix@, i as nat),
            views(carts@) == line_cartouches(views(ls@), i as int),
            line_output(
                prefix@,
                name@,
                i as nat,
                views(carts@),
                k as nat,
                lifted@,
                out@,
            ) == line_output(
                prefix@,
                line_name(prefix@, i as nat),
                i as nat,
                line_cartouches(views(ls@), i as int),
                0,
                views(ls@)[i as int],
                old(out)@,
            ),
        decreases carts@.len() - k,
    {
        assert(views(carts@)[k as int] == carts@[k as int]@);
        let cart_name = join_with(&name, "-", &decimal_of(k));
        begin_snippet(out, &cart_name, &carts[k]);
        let mut pat = Vec::new();
        push_text(&mut pat, "{\\isacartoucheopen}");
        push_all(&mut pat, &carts[k]);
        push_text(&mut pat, "{\\isacartoucheclose}");
        assert(pat@ =~= quoted(carts@[k as int]@));
        bounded_len(&lifted);
        lifted = replace_all(&lifted, &pat, &cartouche(prefix, i, k));
        k += 1;
    }
    begin_snippet(out, &name, &lifted);
}

/// How many entries of `seen` equal `x`.
fn times_seen(seen: &Vec<Vec<char>>, x: &Vec<char>) -> (r: usize)
    ensures
        r == count_of(views(seen@), x@),
{
    let mut n: usize = 0;
    let mut t: usize = 0;
    while t < seen.len()
        invariant
            t <= seen@.len(),
            n == count_of(views(seen@).subrange(0, t as int), x@),
            n <= t,
        decreases seen@.len() - t,
    {
        assert(views(seen@).subrange(0, t + 1).drop_last() =~= views(seen@).subrange(0, t as int));
        if same_chars(&seen[t], x) {
            n += 1;
        }
        t += 1;
    }
    assert(views(seen@).subrange(0, t as int) =~= views(seen@));
    n
}

/// The identifier of a chunk whose raw identifier came `n` times before,
/// with the theory prefix when there is one.
pub fn chunk_name(theory: &Vec<char>, raw: &Vec<char>, n: usize) -> (r: Vec<char>)
    ensures
        r@ == chunk_prefix(theory@, raw@, n as nat),
{
    let id = if n > 0 {
        escape_underscores(&join_with(raw, "-", &decimal_of(n)))
    } else {
        escape_underscores(raw)
    };
    if theory.len() > 0 {
        join_with(&escape_underscores(theory), ":", &id)
    } else {
        id
    }
}

/// Splits the rendered theory `s` into named snippets: for each chunk after
/// the preamble, one block per line, each preceded by the blocks of the
/// cartouches lifted out of it. A non-empty `theory` prefixes every name.
pub fn extract_snippets(s: String, theory: String) -> (r: String)
    ensures
        r@ == extract(s@, theory@),
{
    let doc = chars_of(s.as_str());
    let prefix = chars_of(theory.as_str());
    let cs = chunk_theory(&doc);
    let mut seen: Vec<Vec<char>> = Vec::new();
    let mut out: Vec<char> = Vec::new();
    let mut j: usize = 1;
    let ghost empty: Seq<Seq<char>> = Seq::empty();
    assert(views(seen@) =~= empty);
    assert(out@ =~= Seq::<char>::empty());
    while j < cs.len()
        invariant
            1 <= j,
            views(cs@) == chunks(s@),
            prefix@ == theory@,
            doc_output(views(cs@), prefix@, j as int, views(seen@), out@) == extract(
                s@,
                theory@,
            ),
        ensures
            doc_output(views(cs@), prefix@, j as int, views(seen@), out@) == extract(
                s@,
                theory@,
            ),
            j >= cs@.len(),
        decreases cs@.len() - j,
    {
        let c = &cs[j];
        assert(views(cs@)[j as int] == c@);
        bounded_len(c);
        let mut raw = cmd_chunk(c);
        push_text(&mut raw, ":");
        push_all(&mut raw, &name_chunk(c));
        assert(raw@ =~= raw_id(c@));
        let n = times_seen(&seen, &raw);
        let name = chunk_name(&prefix, &raw, n);
        let ls = line_chunk(c);
        let mut i: usize = 0;
        let ghost start = out@;
        while i < ls.len()
            invariant
                i <= ls@.len(),
                views(ls@) == lines_of(c@),
                lines_output(name@, views(ls@), i as nat, out@) == lines_output(
                    name@,
                    views(ls@),
                    0,
                    start,
                ),
            decreases ls@.len() - i,
        {
            emit_line(&mut out, &name, &ls, i);
            i += 1;
        }
        push_vec(&mut seen, raw);
        j += 1;
    }
    string_of(&out)
}

} // verus!
