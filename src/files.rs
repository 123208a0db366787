//! Which files of a directory hold theories, and the theory each one names.
use crate::text::{chars_of, push_range, string_of};
use vstd::prelude::*;

verus! {

/// Position of the last `.` in `name` before `end`, if any.
pub open spec fn last_dot(name: Seq<char>, end: int) -> Option<int>
    decreases end,
{
    if end <= 0 || end > name.len() {
        None
    } else if name[end - 1] == '.' {
        Some(end - 1)
    } else {
        last_dot(name, end - 1)
    }
}

/// The extension of a file name, as `Path::extension` reads it: what follows
/// the last dot, unless there is none or the only one leads the name.
pub open spec fn extension(name: Seq<char>) -> Option<Seq<char>> {
    match last_dot(name, name.len() as int) {
        Some(d) => if d > 0 {
            Some(name.subrange(d + 1, name.len() as int))
        } else {
            None
        },
        None => None,
    }
}

/// The stem of a file name that has an extension: what precedes the last dot.
pub open spec fn stem(name: Seq<char>) -> Seq<char> {
    match last_dot(name, name.len() as int) {
        Some(d) => name.subrange(0, d),
        None => name,
    }
}

/// Whether `s` begins with an ASCII capital letter.
pub open spec fn capitalized(s: Seq<char>) -> bool {
    s.len() > 0 && 'A' <= s[0] && s[0] <= 'Z'
}

fn find_last_dot(name: &Vec<char>) -> (r: Option<usize>)
    ensures
        r matches Some(d) ==> last_dot(name@, name@.len() as int) == Some(d as int) && d
            < name@.len(),
        r is None ==> last_dot(name@, name@.len() as int) is None,
{
    let mut e = name.len();
    while e > 0
        invariant
            e <= name@.len(),
            last_dot(name@, e as int) == last_dot(name@, name@.len() as int),
        decreases e,
    {
        if name[e - 1] == '.' {
            return Some(e - 1);
        }
        e -= 1;
    }
    None
}

/// Whether the file name `name` has the extension `ext`.
pub fn has_ext(name: &str, ext: &str) -> (r: bool)
    ensures
        r == (extension(name@) == Some(ext@)),
{
    let n = chars_of(name);
    let x = chars_of(ext);
    match find_last_dot(&n) {
        Some(d) => {
            if d == 0 || n.len() - (d + 1) != x.len() {
                return false;
            }
            let mut t: usize = 0;
            while t < x.len()
                invariant
                    d + 1 + x@.len() == n@.len(),
                    0 < d < n@.len() <= isize::MAX,
                    n@ == name@,
                    x@ == ext@,
                    last_dot(name@, name@.len() as int) == Some(d as int),
                    t <= x@.len(),
                    forall|u: int| 0 <= u < t ==> n@[d + 1 + u] == x@[u],
                decreases x@.len() - t,
            {
                if n[d + 1 + t] != x[t] {
                    assert(n@.subrange(d + 1, n@.len() as int)[t as int] != x@[t as int]);
                    return false;
                }
                t += 1;
            }
            assert(n@.subrange(d + 1, n@.len() as int) =~= x@);
            true
        },
        None => false,
    }
}

/// Whether `s` begins with an ASCII capital letter.
pub fn is_ascii_capitalized(s: &str) -> (r: bool)
    ensures
        r == capitalized(s@),
{
    let c = chars_of(s);
    c.len() > 0 && 'A' <= c[0] && c[0] <= 'Z'
}

/// The theory that a file of a directory holds: its stem, when its
/// extension is `tex` and its name begins with a capital letter.
pub fn theory_name(name: &str) -> (r: Option<String>)
    ensures
        r matches Some(t) ==> t@ == stem(name@),
        r is Some <==> extension(name@) == Some("tex"@) && capitalized(name@),
{
    if !(has_ext(name, "tex") && is_ascii_capitalized(name)) {
        return None;
    }
    let n = chars_of(name);
    match find_last_dot(&n) {
        Some(d) => {
            let mut t = Vec::new();
            push_range(&mut t, &n, 0, d);
            assert(t@ =~= stem(name@));
            Some(string_of(&t))
        },
        None => None,
    }
}

} // verus!
