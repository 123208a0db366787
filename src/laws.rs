//! Properties of the whole transformation, stated over the specification
//! functions and proved.
use crate::ident::{chunks, chunks_from};
use crate::lines::{strip_newlines, strip_tail, visible};
use crate::scan::{advances, find_cmd, gate_ok, word_end};
use crate::lines::lines_of;
use crate::snippets::{
    block, chunk_prefix, count_of, doc_output, extract, line_cartouches, line_name, line_output,
    lines_output, placeholder, quoted, raw_id, replace,
};
use crate::text::{begins_with, decimal, hex_digit, is_ascii_ws};
use vstd::prelude::*;

verus! {

/// The blocks of cartouches `k..`, in order, of the line named `name`.
pub open spec fn cartouche_blocks(name: Seq<char>, carts: Seq<Seq<char>>, k: nat) -> Seq<char>
    decreases carts.len() - k,
{
    if k >= carts.len() {
        Seq::empty()
    } else {
        block(name + "-"@ + decimal(k), carts[k as int]) + cartouche_blocks(name, carts, k + 1)
    }
}

/// A line with cartouches `k..` replaced by their references.
pub open spec fn replaced_line(
    prefix: Seq<char>,
    i: nat,
    carts: Seq<Seq<char>>,
    k: nat,
    lifted: Seq<char>,
) -> Seq<char>
    decreases carts.len() - k,
{
    if k >= carts.len() {
        lifted
    } else {
        replaced_line(
            prefix,
            i,
            carts,
            k + 1,
            replace(lifted, quoted(carts[k as int]), placeholder(prefix, i, k)),
        )
    }
}

/// The blocks of a line's cartouches come before the line's own block, in
/// the order in which the cartouches were found.
pub proof fn lemma_cartouches_precede_line(
    prefix: Seq<char>,
    name: Seq<char>,
    i: nat,
    carts: Seq<Seq<char>>,
    k: nat,
    lifted: Seq<char>,
    acc: Seq<char>,
)
    ensures
        line_output(prefix, name, i, carts, k, lifted, acc) == acc + cartouche_blocks(
            name,
            carts,
            k,
        ) + block(name, replaced_line(prefix, i, carts, k, lifted)),
    decreases carts.len() - k,
{
    if k < carts.len() {
        let b = block(name + "-"@ + decimal(k), carts[k as int]);
        let next = replace(lifted, quoted(carts[k as int]), placeholder(prefix, i, k));
        lemma_cartouches_precede_line(prefix, name, i, carts, k + 1, next, acc + b);
        assert(acc + b + cartouche_blocks(name, carts, k + 1) =~= acc + cartouche_blocks(
            name,
            carts,
            k,
        ));
    } else {
        assert(acc + cartouche_blocks(name, carts, k) =~= acc);
    }
}

proof fn lemma_count_prefix(raws: Seq<Seq<char>>, a: int, b: int, x: Seq<char>)
    requires
        0 <= a <= b <= raws.len(),
    ensures
        count_of(raws.subrange(0, a), x) <= count_of(raws.subrange(0, b), x),
    decreases b - a,
{
    if a < b {
        lemma_count_prefix(raws, a, b - 1, x);
        assert(raws.subrange(0, b).drop_last() =~= raws.subrange(0, b - 1));
    }
}

/// A chunk whose raw identifier came before gets a larger suffix than each
/// earlier chunk with that identifier: the first gets none, later ones
/// `-1`, `-2`, ... in the order in which they come.
pub proof fn lemma_suffixes_increase(raws: Seq<Seq<char>>, i: int, j: int)
    requires
        0 <= i < j < raws.len(),
        raws[i] == raws[j],
    ensures
        count_of(raws.subrange(0, i), raws[i]) < count_of(raws.subrange(0, j), raws[j]),
{
    lemma_count_prefix(raws, i + 1, j, raws[i]);
    assert(raws.subrange(0, i + 1).drop_last() =~= raws.subrange(0, i));
}

/// A chunk whose raw identifier did not come before gets no suffix.
pub proof fn lemma_first_unsuffixed(raws: Seq<Seq<char>>, j: int)
    requires
        0 <= j < raws.len(),
        forall|t: int| 0 <= t < j ==> raws[t] != raws[j],
    ensures
        count_of(raws.subrange(0, j), raws[j]) == 0,
    decreases j,
{
    if j > 0 {
        let s = raws.subrange(0, j);
        assert(s.drop_last() =~= raws.subrange(0, j - 1));
        lemma_zero_count(raws, j, j, raws[j]);
    }
}

proof fn lemma_zero_count(raws: Seq<Seq<char>>, j: int, e: int, x: Seq<char>)
    requires
        0 <= e <= j < raws.len(),
        forall|t: int| 0 <= t < j ==> raws[t] != x,
    ensures
        count_of(raws.subrange(0, e), x) == 0,
    decreases e,
{
    if e > 0 {
        assert(raws.subrange(0, e).drop_last() =~= raws.subrange(0, e - 1));
        lemma_zero_count(raws, j, e - 1, x);
    }
}

/// Two chunks get the same pair of raw identifier and suffix only if they
/// are the same chunk.
pub proof fn lemma_chunk_keys_distinct(raws: Seq<Seq<char>>, i: int, j: int)
    requires
        0 <= i < raws.len(),
        0 <= j < raws.len(),
        i != j,
    ensures
        raws[i] != raws[j] || count_of(raws.subrange(0, i), raws[i]) != count_of(
            raws.subrange(0, j),
            raws[j],
        ),
{
    if raws[i] == raws[j] {
        if i < j {
            lemma_suffixes_increase(raws, i, j);
        } else {
            lemma_suffixes_increase(raws, j, i);
        }
    }
}

/// The output is a function of the document and the theory name alone.
pub proof fn lemma_extract_deterministic(doc: Seq<char>, theory: Seq<char>, r1: Seq<char>, r2: Seq<char>)
    requires
        r1 == extract(doc, theory),
        r2 == extract(doc, theory),
    ensures
        r1 == r2,
{
}

/// A document without any structural command gives an empty output.
pub proof fn lemma_no_command_no_output(doc: Seq<char>, theory: Seq<char>)
    requires
        find_cmd(doc, 0, "isacommand"@, true) is None,
    ensures
        extract(doc, theory) == Seq::<char>::empty(),
{
    assert(chunks(doc).len() == 1);
}

/// Trailing groups without visible content are dropped; the last group kept
/// is the last visible one, without its trailing newline escapes, and is
/// itself dropped when nothing else is left of it.
pub proof fn lemma_trailing_blank_dropped(gs: Seq<Seq<char>>)
    ensures
        (exists|m: int|
            0 <= m < gs.len() && visible(#[trigger] gs[m]) && (forall|t: int|
                m < t < gs.len() ==> !visible(#[trigger] gs[t])) && strip_tail(gs) == gs.subrange(
                0,
                m,
            ) + if strip_newlines(gs[m]).len() > 0 {
                seq![strip_newlines(gs[m])]
            } else {
                Seq::empty()
            }) || ((forall|t: int| 0 <= t < gs.len() ==> !visible(#[trigger] gs[t]))
            && strip_tail(gs).len() == 0),
    decreases gs.len(),
{
    if gs.len() > 0 {
        let m = gs.len() - 1;
        if visible(gs.last()) {
            assert(gs.drop_last() =~= gs.subrange(0, m));
            if strip_newlines(gs[m]).len() > 0 {
                assert(gs.drop_last().push(strip_newlines(gs.last())) =~= gs.subrange(0, m)
                    + seq![strip_newlines(gs[m])]);
            } else {
                assert(gs.drop_last() =~= gs.subrange(0, m) + Seq::<Seq<char>>::empty());
            }
            assert(visible(gs[m]));
        } else {
            let p = gs.drop_last();
            lemma_trailing_blank_dropped(p);
            if exists|m2: int|
                0 <= m2 < p.len() && visible(#[trigger] p[m2]) && (forall|t: int|
                    m2 < t < p.len() ==> !visible(#[trigger] p[t])) && strip_tail(p)
                    == p.subrange(0, m2) + if strip_newlines(p[m2]).len() > 0 {
                    seq![strip_newlines(p[m2])]
                } else {
                    Seq::empty()
                } {
                let m2 = choose|m2: int|
                    0 <= m2 < p.len() && visible(#[trigger] p[m2]) && (forall|t: int|
                        m2 < t < p.len() ==> !visible(#[trigger] p[t])) && strip_tail(p)
                        == p.subrange(0, m2) + if strip_newlines(p[m2]).len() > 0 {
                        seq![strip_newlines(p[m2])]
                    } else {
                        Seq::empty()
                    };
                assert(p.subrange(0, m2) =~= gs.subrange(0, m2));
                assert(visible(gs[m2]));
                assert forall|t: int| m2 < t < gs.len() implies !visible(#[trigger] gs[t]) by {
                    if t < p.len() {
                        assert(gs[t] == p[t]);
                    }
                }
            } else {
                assert forall|t: int| 0 <= t < gs.len() implies !visible(#[trigger] gs[t]) by {
                    if t < p.len() {
                        assert(gs[t] == p[t]);
                    }
                }
            }
        }
    }
}

proof fn lemma_decimal_digits(n: nat)
    ensures
        decimal(n).len() >= 1,
        forall|j: int| 0 <= j < decimal(n).len() ==> '0' <= #[trigger] decimal(n)[j] <= '9',
    decreases n,
{
    if n >= 10 {
        lemma_decimal_digits(n / 10);
        assert forall|j: int| 0 <= j < decimal(n).len() implies '0' <= #[trigger] decimal(n)[j]
            <= '9' by {
            if j < decimal(n / 10).len() {
                assert(decimal(n)[j] == decimal(n / 10)[j]);
            }
        }
    }
}

proof fn lemma_digit_injective(x: nat, y: nat)
    requires
        x < 10,
        y < 10,
        hex_digit(x) == hex_digit(y),
    ensures
        x == y,
{
    assert(hex_digit(x) as nat == 48 + x);
    assert(hex_digit(y) as nat == 48 + y);
}

proof fn lemma_decimal_injective(a: nat, b: nat)
    requires
        decimal(a) == decimal(b),
    ensures
        a == b,
    decreases a,
{
    lemma_decimal_digits(a);
    lemma_decimal_digits(b);
    if a >= 10 && b >= 10 {
        assert(decimal(a).drop_last() =~= decimal(a / 10));
        assert(decimal(b).drop_last() =~= decimal(b / 10));
        lemma_decimal_injective(a / 10, b / 10);
        assert(decimal(a) == decimal(a / 10).push(hex_digit(a % 10)));
        assert(decimal(b) == decimal(b / 10).push(hex_digit(b % 10)));
        assert(decimal(a).last() == decimal(b).last());
        assert(decimal(a).last() == hex_digit(a % 10));
        assert(decimal(b).last() == hex_digit(b % 10));
        lemma_digit_injective(a % 10, b % 10);
        assert(a == 10 * (a / 10) + a % 10) by (nonlinear_arith);
        assert(b == 10 * (b / 10) + b % 10) by (nonlinear_arith);
    } else if a >= 10 {
        lemma_decimal_digits(a / 10);
    } else if b >= 10 {
        lemma_decimal_digits(b / 10);
    } else {
        assert(decimal(a) == seq![hex_digit(a)]);
        assert(decimal(b) == seq![hex_digit(b)]);
        assert(decimal(a)[0] == decimal(b)[0]);
        assert(seq![hex_digit(a)][0] == hex_digit(a));
        assert(seq![hex_digit(b)][0] == hex_digit(b));
        lemma_digit_injective(a, b);
    }
}

/// The name of a snippet of line `i` of the chunk named `prefix`: the
/// line's own when `k` is `None`, that of its cartouche `k` otherwise.
pub open spec fn snippet_name(prefix: Seq<char>, i: nat, k: Option<nat>) -> Seq<char> {
    match k {
        Some(k) => line_name(prefix, i) + "-"@ + decimal(k),
        None => line_name(prefix, i),
    }
}

/// Within one chunk, the snippets of different lines, or of different
/// cartouches of a line, or of a line and one of its cartouches, have
/// different names.
pub proof fn lemma_names_distinct_in_chunk(
    prefix: Seq<char>,
    i1: nat,
    k1: Option<nat>,
    i2: nat,
    k2: Option<nat>,
)
    requires
        i1 != i2 || k1 != k2,
    ensures
        snippet_name(prefix, i1, k1) != snippet_name(prefix, i2, k2),
{
    reveal_strlit("-");
    let p = prefix + "-"@;
    let d1 = decimal(i1);
    let d2 = decimal(i2);
    lemma_decimal_digits(i1);
    lemma_decimal_digits(i2);
    let t1 = match k1 {
        Some(k) => d1 + "-"@ + decimal(k),
        None => d1,
    };
    let t2 = match k2 {
        Some(k) => d2 + "-"@ + decimal(k),
        None => d2,
    };
    assert(snippet_name(prefix, i1, k1) =~= p + t1);
    assert(snippet_name(prefix, i2, k2) =~= p + t2);
    if snippet_name(prefix, i1, k1) == snippet_name(prefix, i2, k2) {
        assert(t1 =~= (p + t1).subrange(p.len() as int, (p + t1).len() as int));
        assert(t2 =~= (p + t2).subrange(p.len() as int, (p + t2).len() as int));
        assert(t1 == t2);
        // The first hyphen of each tail ends its line number.
        if d1.len() < d2.len() {
            if k1 is Some {
                assert(t1[d1.len() as int] == '-');
                assert(t2[d1.len() as int] == d2[d1.len() as int]);
            } else {
                assert(t1.len() < t2.len());
            }
        } else if d2.len() < d1.len() {
            if k2 is Some {
                assert(t2[d2.len() as int] == '-');
                assert(t1[d2.len() as int] == d1[d2.len() as int]);
            } else {
                assert(t2.len() < t1.len());
            }
        } else {
            assert(d1 =~= t1.subrange(0, d1.len() as int));
            assert(d2 =~= t2.subrange(0, d2.len() as int));
            lemma_decimal_injective(i1, i2);
            match (k1, k2) {
                (Some(a), Some(b)) => {
                    assert(decimal(a) =~= t1.subrange(d1.len() as int + 1, t1.len() as int));
                    assert(decimal(b) =~= t2.subrange(d2.len() as int + 1, t2.len() as int));
                    lemma_decimal_injective(a, b);
                },
                (Some(a), None) => {
                    assert(t1.len() > t2.len());
                },
                (None, Some(b)) => {
                    assert(t2.len() > t1.len());
                },
                (None, None) => {},
            }
        }
    }
}

proof fn lemma_word_chars(s: Seq<char>, j: int)
    requires
        0 <= j <= s.len(),
    ensures
        j <= word_end(s, j) <= s.len(),
        forall|t: int| j <= t < word_end(s, j) ==> s[t] != '\\',
    decreases s.len() - j,
{
    if j < s.len() && !(s[j] == '\\' || s[j] == '{' || s[j] == '}' || s[j] == '%' || is_ascii_ws(
        s[j],
    )) {
        lemma_word_chars(s, j + 1);
    }
}

proof fn lemma_found_escape(s: Seq<char>, i: int, goal: Seq<char>, gated: bool)
    requires
        0 <= i,
        goal != seq![' '],
    ensures
        find_cmd(s, i, goal, gated) matches Some(k) ==> i <= k < s.len() && s[k] == '\\' && k + 1
            <= s.len() && s.subrange(k + 1, word_end(s, k + 1)) == goal,
    decreases s.len() + 1 - i,
{
    if 0 <= i < s.len() {
        if s[i] == '\\' {
            lemma_word_chars(s, i + 1);
            let e = word_end(s, i + 1);
            let hit = s.subrange(i + 1, e) == goal;
            if !(hit && (!gated || gate_ok(s, e + 1))) {
                let next = e;
                if advances(s, i, next) {
                    lemma_found_escape(s, next, goal, gated);
                }
            }
        } else {
            lemma_found_escape(s, i + 1, goal, gated);
        }
    }
}

/// Whether a structural command's escape `\isacommand` stands at `f`.
pub open spec fn command_at(s: Seq<char>, f: int) -> bool {
    0 <= f < s.len() && s[f] == '\\' && s.subrange(f + 1, word_end(s, f + 1)) == "isacommand"@
}

proof fn lemma_chunk_begins(s: Seq<char>, from: int, k: int)
    requires
        command_at(s, from),
        from < k <= s.len(),
        k == s.len() || s[k] == '\\',
    ensures
        begins_with(s.subrange(from, k), "\\isacommand"@),
{
    reveal_strlit("isacommand");
    reveal_strlit("\\isacommand");
    lemma_word_chars(s, from + 1);
    let e = word_end(s, from + 1);
    assert("isacommand"@.len() == 10);
    assert(s.subrange(from + 1, e).len() == 10);
    assert(e == from + 11);
    if k < e {
        assert(s[k] != '\\');
    }
    assert("\\isacommand"@ =~= seq!['\\'] + "isacommand"@);
    assert(s.subrange(from, k).subrange(0, 11) =~= seq!['\\'] + "isacommand"@) by {
        assert forall|t: int| 1 <= t < 11 implies #[trigger] s[from + t] == "isacommand"@[t - 1] by {
            assert(s.subrange(from + 1, e)[t - 1] == s[from + t]);
        }
    }
}

proof fn lemma_chunks_from_begin(s: Seq<char>, i: int, from: int, acc: Seq<Seq<char>>)
    requires
        (acc.len() == 0 && from == 0 && i == 0) || (acc.len() >= 1 && command_at(s, from) && i
            == from + 1),
        forall|t: int| 1 <= t < acc.len() ==> begins_with(#[trigger] acc[t], "\\isacommand"@),
    ensures
        forall|t: int|
            1 <= t < chunks_from(s, i, from, acc).len() ==> begins_with(
                #[trigger] chunks_from(s, i, from, acc)[t],
                "\\isacommand"@,
            ),
    decreases s.len() + 1 - i,
{
    reveal_strlit("isacommand");
    assert("isacommand"@ != seq![' ']) by {
        assert("isacommand"@.len() != 1);
    }
    lemma_found_escape(s, i, "isacommand"@, true);
    match find_cmd(s, i, "isacommand"@, true) {
        Some(k) => {
            if i <= k < s.len() {
                let next = acc.push(s.subrange(from, k));
                if acc.len() >= 1 {
                    lemma_chunk_begins(s, from, k);
                }
                assert forall|t: int| 1 <= t < next.len() implies begins_with(
                    #[trigger] next[t],
                    "\\isacommand"@,
                ) by {
                    if t < acc.len() {
                        assert(next[t] == acc[t]);
                    }
                }
                lemma_chunks_from_begin(s, k + 1, k, next);
                assert(chunks_from(s, i, from, acc) == chunks_from(s, k + 1, k, next));
            }
        },
        None => {
            let next = acc.push(s.subrange(from, s.len() as int));
            if acc.len() >= 1 {
                lemma_chunk_begins(s, from, s.len() as int);
            }
            assert forall|t: int| 1 <= t < next.len() implies begins_with(
                #[trigger] next[t],
                "\\isacommand"@,
            ) by {
                if t < acc.len() {
                    assert(next[t] == acc[t]);
                }
            }
            assert(chunks_from(s, i, from, acc) == next);
        },
    }
}

/// Every chunk after the preamble begins with the escape `\isacommand` of
/// the structural command that it belongs to.
pub proof fn lemma_chunks_start_at_commands(s: Seq<char>)
    ensures
        forall|j: int|
            1 <= j < chunks(s).len() ==> begins_with(#[trigger] chunks(s)[j], "\\isacommand"@),
{
    lemma_chunks_from_begin(s, 0, 0, Seq::empty());
}

/// The blocks of lines `i..` of `ls` in a chunk named `prefix`: for each
/// line, the blocks of its cartouches in the order found, then its own.
pub open spec fn line_blocks(prefix: Seq<char>, ls: Seq<Seq<char>>, i: nat) -> Seq<char>
    decreases ls.len() - i,
{
    if i >= ls.len() {
        Seq::empty()
    } else {
        let name = line_name(prefix, i);
        let carts = line_cartouches(ls, i as int);
        cartouche_blocks(name, carts, 0) + block(
            name,
            replaced_line(prefix, i, carts, 0, ls[i as int]),
        ) + line_blocks(prefix, ls, i + 1)
    }
}

/// The raw identifiers `command:name` of a list of chunks.
pub open spec fn raw_ids(cs: Seq<Seq<char>>) -> Seq<Seq<char>> {
    cs.map_values(|c: Seq<char>| raw_id(c))
}

/// The name given to chunk `j` of `cs`: its raw identifier, suffixed by how
/// often that identifier came among chunks `1..j`, under the theory prefix.
pub open spec fn chunk_name_of(cs: Seq<Seq<char>>, theory: Seq<char>, j: int) -> Seq<char> {
    chunk_prefix(theory, raw_id(cs[j]), count_of(raw_ids(cs).subrange(1, j), raw_id(cs[j])))
}

/// The blocks of chunks `j..` of `cs`, in order.
pub open spec fn chunk_blocks(cs: Seq<Seq<char>>, theory: Seq<char>, j: int) -> Seq<char>
    decreases cs.len() - j,
{
    if j < 0 || j >= cs.len() {
        Seq::empty()
    } else {
        line_blocks(chunk_name_of(cs, theory, j), lines_of(cs[j]), 0) + chunk_blocks(
            cs,
            theory,
            j + 1,
        )
    }
}

proof fn lemma_lines_output(prefix: Seq<char>, ls: Seq<Seq<char>>, i: nat, acc: Seq<char>)
    ensures
        lines_output(prefix, ls, i, acc) == acc + line_blocks(prefix, ls, i),
    decreases ls.len() - i,
{
    if i >= ls.len() {
        assert(acc + line_blocks(prefix, ls, i) =~= acc);
    } else {
        let name = line_name(prefix, i);
        let carts = line_cartouches(ls, i as int);
        lemma_cartouches_precede_line(prefix, name, i, carts, 0, ls[i as int], acc);
        let next = line_output(prefix, name, i, carts, 0, ls[i as int], acc);
        lemma_lines_output(prefix, ls, i + 1, next);
        assert(next + line_blocks(prefix, ls, i + 1) =~= acc + line_blocks(prefix, ls, i));
    }
}

proof fn lemma_doc_output(
    cs: Seq<Seq<char>>,
    theory: Seq<char>,
    j: int,
    seen: Seq<Seq<char>>,
    acc: Seq<char>,
)
    requires
        1 <= j <= cs.len(),
        seen == raw_ids(cs).subrange(1, j),
    ensures
        doc_output(cs, theory, j, seen, acc) == acc + chunk_blocks(cs, theory, j),
    decreases cs.len() - j,
{
    if j >= cs.len() {
        assert(acc + chunk_blocks(cs, theory, j) =~= acc);
    } else {
        let raw = raw_id(cs[j]);
        let prefix = chunk_prefix(theory, raw, count_of(seen, raw));
        assert(prefix == chunk_name_of(cs, theory, j));
        lemma_lines_output(prefix, lines_of(cs[j]), 0, acc);
        let next = lines_output(prefix, lines_of(cs[j]), 0, acc);
        assert(seen.push(raw) =~= raw_ids(cs).subrange(1, j + 1));
        lemma_doc_output(cs, theory, j + 1, seen.push(raw), next);
        assert(next + chunk_blocks(cs, theory, j + 1) =~= acc + chunk_blocks(cs, theory, j));
    }
}

/// The whole output, block by block: for each chunk after the preamble in
/// document order, named by its raw identifier with the suffix `-n` when
/// that identifier came `n >= 1` times before, for each of its lines in
/// order, the blocks of the line's cartouches in the order found and then
/// the line's own block.
pub proof fn lemma_output_layout(doc: Seq<char>, theory: Seq<char>)
    ensures
        extract(doc, theory) == chunk_blocks(chunks(doc), theory, 1),
{
    let cs = chunks(doc);
    if cs.len() >= 1 {
        assert(Seq::<Seq<char>>::empty() =~= raw_ids(cs).subrange(1, 1));
        lemma_doc_output(cs, theory, 1, Seq::empty(), Seq::empty());
        assert(Seq::<char>::empty() + chunk_blocks(cs, theory, 1) =~= chunk_blocks(cs, theory, 1));
    } else {
        assert(extract(doc, theory) == Seq::<char>::empty());
    }
}

} // verus!
