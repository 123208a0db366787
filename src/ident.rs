//! Splitting a document into command chunks, and the command and name that
//! identify each chunk.
use crate::scan::{
    decode, find_cmd, read_until_cmd, skip_blank, skip_char, skip_to, skip_whitespace,
    take_isaname,
};
use crate::text::{chars_digest, chars_of, digest_chars, hex, hex_of, push_range, push_vec, same_chars, views};
use vstd::prelude::*;

verus! {

/// The chunks of `s` found from position `i` on, the open one starting at
/// `from`, appended to `acc`.
pub open spec fn chunks_from(s: Seq<char>, i: int, from: int, acc: Seq<Seq<char>>) -> Seq<
    Seq<char>,
>
    decreases s.len() + 1 - i,
{
    match find_cmd(s, i, "isacommand"@, true) {
        Some(k) => if i <= k < s.len() {
            chunks_from(s, k + 1, k, acc.push(s.subrange(from, k)))
        } else {
            acc.push(s.subrange(from, s.len() as int))
        },
        None => acc.push(s.subrange(from, s.len() as int)),
    }
}

/// The chunks of `s`: the preamble before the first structural command, then
/// one chunk per command, each running from the command's backslash up to
/// the next command's backslash or to the end.
pub open spec fn chunks(s: Seq<char>) -> Seq<Seq<char>> {
    chunks_from(s, 0, 0, Seq::empty())
}

/// The command keyword of a chunk; empty when it holds none.
pub open spec fn command_of(c: Seq<char>) -> Seq<char> {
    match find_cmd(c, 0, "isacommand"@, true) {
        Some(i) => match decode(c, skip_to(c, i, '{')) {
            Some(n) => n,
            None => Seq::empty(),
        },
        None => Seq::empty(),
    }
}

/// A name right after the first escaped space: `command NAME`.
pub open spec fn name_after_space(c: Seq<char>) -> Option<Seq<char>> {
    match find_cmd(c, 0, seq![' '], false) {
        Some(i) => decode(c, skip_blank(c, i + 2)),
        None => None,
    }
}

/// A name after a closing parenthesis and its kerning marker, unless a
/// cartouche opens before: `function (sequential) NAME`.
pub open spec fn name_after_paren(c: Seq<char>) -> Option<Seq<char>> {
    match find_cmd(c, 0, "isacharparenright"@, false) {
        Some(p) => match find_cmd(c, p, "kern0pt"@, false) {
            Some(i) => {
                let entered = match find_cmd(c, 0, "isacartoucheopen"@, false) {
                    Some(k) => k < i,
                    None => false,
                };
                if entered {
                    None
                } else {
                    decode(c, skip_blank(c, skip_to(c, i, '}')))
                }
            },
            None => None,
        },
        None => None,
    }
}

/// Whether `cmd` puts a type variable before the name it declares.
pub open spec fn takes_type_var(cmd: Seq<char>) -> bool {
    cmd == "datatype"@ || cmd == "codatatype"@ || cmd == "type_synonym"@
}

/// Whether `cmd` writes the name it declares inside a cartouche.
pub open spec fn names_in_cartouche(cmd: Seq<char>) -> bool {
    cmd == "abbreviation"@ || cmd == "definition"@
}

/// A name after a type variable: `datatype 'a NAME`.
pub open spec fn name_after_type_var(c: Seq<char>) -> Option<Seq<char>> {
    match find_cmd(c, 0, "isacharprime"@, false) {
        Some(p) => match find_cmd(c, p, "kern0pt"@, false) {
            Some(i) => decode(c, skip_blank(c, skip_to(c, skip_to(c, i, '}'), ' '))),
            None => None,
        },
        None => None,
    }
}

/// A name at the start of the first cartouche: `definition "NAME ..."`.
pub open spec fn name_in_cartouche(c: Seq<char>) -> Option<Seq<char>> {
    match find_cmd(c, 0, "isacartoucheopen"@, false) {
        Some(i) => decode(c, skip_blank(c, skip_to(c, i, '}'))),
        None => None,
    }
}

/// The name of a chunk: the first of the heuristics that finds one, else
/// the chunk's digest in hexadecimal.
pub open spec fn name_of(c: Seq<char>) -> Seq<char> {
    let cmd = command_of(c);
    if let Some(n) = name_after_space(c) {
        n
    } else if let Some(n) = name_after_paren(c) {
        n
    } else if takes_type_var(cmd) && name_after_type_var(c) is Some {
        name_after_type_var(c)->0
    } else if names_in_cartouche(cmd) && name_in_cartouche(c) is Some {
        name_in_cartouche(c)->0
    } else {
        hex(chars_digest(c) as nat)
    }
}

proof fn lemma_decode_past_end(s: Seq<char>, i: int)
    requires
        i >= s.len(),
    ensures
        decode(s, i) is None,
{
    assert(crate::scan::decode_from(s, i, Seq::empty()) == Seq::<char>::empty());
}

/// Splits `s` into the preamble and one chunk per structural command.
pub fn chunk_theory(s: &Vec<char>) -> (r: Vec<Vec<char>>)
    requires
        s@.len() <= isize::MAX,
    ensures
        views(r@) == chunks(s@),
{
    let goal = chars_of("isacommand");
    let mut res: Vec<Vec<char>> = Vec::new();
    let mut i: usize = 0;
    let mut from: usize = 0;
    let ghost empty: Seq<Seq<char>> = Seq::empty();
    assert(views(res@) =~= empty);
    while i <= s.len()
        invariant
            from <= i <= s@.len() + 1,
            from <= s@.len(),
            i > 0 ==> from < i,
            s@.len() <= isize::MAX,
            goal@ == "isacommand"@,
            chunks_from(s@, i as int, from as int, views(res@)) == chunks(s@),
        ensures
            from <= s@.len(),
            chunks_from(s@, i as int, from as int, views(res@)) == chunks(s@),
            find_cmd(s@, i as int, "isacommand"@, true) is None,
        decreases s@.len() + 1 - i,
    {
        match read_until_cmd(s, i, &goal, true) {
            Some(k) => {
                let c = k;
                let mut chunk = Vec::new();
                push_range(&mut chunk, s, from, c);
                assert(chunk@ =~= s@.subrange(from as int, c as int));
                push_vec(&mut res, chunk);
                from = c;
                i = k + 1;
            },
            None => {
                break;
            },
        }
    }
    let mut chunk = Vec::new();
    push_range(&mut chunk, s, from, s.len());
    assert(chunk@ =~= s@.subrange(from as int, s@.len() as int));
    push_vec(&mut res, chunk);
    res
}

/// The command keyword of a chunk; empty when it holds none.
pub fn cmd_chunk(c: &Vec<char>) -> (r: Vec<char>)
    requires
        c@.len() <= isize::MAX,
    ensures
        r@ == command_of(c@),
{
    let goal = chars_of("isacommand");
    match read_until_cmd(c, 0, &goal, true) {
        Some(i) => {
            let j = skip_char(c, i, '{');
            match take_isaname(c, j) {
                Some(n) => n,
                None => Vec::new(),
            }
        },
        None => Vec::new(),
    }
}

fn try_after_space(c: &Vec<char>) -> (r: Option<Vec<char>>)
    requires
        c@.len() <= isize::MAX,
    ensures
        r matches Some(n) ==> name_after_space(c@) == Some(n@),
        r is None ==> name_after_space(c@) is None,
{
    let space = chars_of(" ");
    proof {
        reveal_strlit(" ");
        assert(space@ =~= seq![' ']);
    }
    match read_until_cmd(c, 0, &space, false) {
        Some(i) => {
            let j = skip_whitespace(c, i + 2);
            take_isaname(c, j)
        },
        None => None,
    }
}

fn try_after_paren(c: &Vec<char>) -> (r: Option<Vec<char>>)
    requires
        c@.len() <= isize::MAX,
    ensures
        r matches Some(n) ==> name_after_paren(c@) == Some(n@),
        r is None ==> name_after_paren(c@) is None,
{
    let paren = chars_of("isacharparenright");
    let kern = chars_of("kern0pt");
    let open = chars_of("isacartoucheopen");
    match read_until_cmd(c, 0, &paren, false) {
        Some(p) => match read_until_cmd(c, p, &kern, false) {
            Some(i) => {
                let entered = match read_until_cmd(c, 0, &open, false) {
                    Some(k) => k < i,
                    None => false,
                };
                if entered {
                    None
                } else {
                    let j = skip_char(c, i, '}');
                    let j = skip_whitespace(c, j);
                    take_isaname(c, j)
                }
            },
            None => None,
        },
        None => None,
    }
}

fn try_after_type_var(c: &Vec<char>) -> (r: Option<Vec<char>>)
    requires
        c@.len() <= isize::MAX,
    ensures
        r matches Some(n) ==> name_after_type_var(c@) == Some(n@),
        r is None ==> name_after_type_var(c@) is None,
{
    let prime = chars_of("isacharprime");
    let kern = chars_of("kern0pt");
    match read_until_cmd(c, 0, &prime, false) {
        Some(p) => match read_until_cmd(c, p, &kern, false) {
            Some(i) => {
                let j = skip_char(c, i, '}');
                if j > c.len() {
                    proof {
                        let a = skip_to(c@, j as int, ' ');
                        assert(a == j + 1);
                        assert(skip_blank(c@, a) == a);
                        lemma_decode_past_end(c@, a);
                    }
                    return None;
                }
                let j = skip_char(c, j, ' ');
                let j = skip_whitespace(c, j);
                take_isaname(c, j)
            },
            None => None,
        },
        None => None,
    }
}

fn try_in_cartouche(c: &Vec<char>) -> (r: Option<Vec<char>>)
    requires
        c@.len() <= isize::MAX,
    ensures
        r matches Some(n) ==> name_in_cartouche(c@) == Some(n@),
        r is None ==> name_in_cartouche(c@) is None,
{
    let open = chars_of("isacartoucheopen");
    match read_until_cmd(c, 0, &open, false) {
        Some(i) => {
            let j = skip_char(c, i, '}');
            let j = skip_whitespace(c, j);
            take_isaname(c, j)
        },
        None => None,
    }
}

/// The name of a chunk: the first of the heuristics that finds one, else
/// the chunk's digest in hexadecimal.
pub fn name_chunk(c: &Vec<char>) -> (r: Vec<char>)
    requires
        c@.len() <= isize::MAX,
    ensures
        r@ == name_of(c@),
{
    let cmd = cmd_chunk(c);
    if let Some(n) = try_after_space(c) {
        return n;
    }
    if let Some(n) = try_after_paren(c) {
        return n;
    }
    let datatype = chars_of("datatype");
    let codatatype = chars_of("codatatype");
    let type_synonym = chars_of("type_synonym");
    if same_chars(&cmd, &datatype) || same_chars(&cmd, &codatatype) || same_chars(
        &cmd,
        &type_synonym,
    ) {
        if let Some(n) = try_after_type_var(c) {
            return n;
        }
    }
    let abbreviation = chars_of("abbreviation");
    let definition = chars_of("definition");
    if same_chars(&cmd, &abbreviation) || same_chars(&cmd, &definition) {
        if let Some(n) = try_in_cartouche(c) {
            return n;
        }
    }
    hex_of(digest_chars(c))
}

} // verus!
