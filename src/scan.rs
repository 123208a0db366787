//! Cursor primitives over a rendered document: skipping, decoding escaped
//! identifiers and locating escape commands.
use crate::text::{
    alphanumeric, begins_with, chars_of, is_alnum, is_ascii_ws, matches_at, occurs_at, push_range,
};
use vstd::prelude::*;

verus! {

/// Top-level structural commands, sorted and separated by single spaces.
pub const COMMAND_LIST: &'static str = "ML ML_command ML_export ML_file ML_file_debug ML_file_no_debug ML_val SML_export SML_file SML_file_debug SML_file_no_debug SML_import abbreviation alias attribute_setup axiomatization bibtex_file bnf bundle chapter class class_deps codatatype code_datatype code_deps code_identifier code_monad code_pred code_printing code_reflect code_reserved code_thms coinductive coinductive_set compile_generated_files consts context copy_bnf corollary datatype datatype_compat declaration declare default_sort definition end experiment export_code export_generated_files external_file extract extract_type find_consts find_theorems find_unused_assms free_constructors full_prf fun fun_cases function functor generate_file global_interpretation help hide_class hide_const hide_fact hide_type inductive inductive_cases inductive_set inductive_simps instance instantiation interpretation judgment lemma lemmas lift_bnf lift_definition lifting_forget lifting_update local_setup locale locale_deps method_setup named_theorems nitpick_params no_notation no_syntax no_translations no_type_notation nonterminal notation notepad nunchaku_params old_rep_datatype oracle overloading paragraph parse_ast_translation parse_translation partial_function prf primcorec primcorecursive primrec print_ML_antiquotations print_abbrevs print_antiquotations print_ast_translation print_attributes print_bnfs print_bundles print_case_translations print_cases print_claset print_classes print_codeproc print_codesetup print_coercions print_commands print_context print_definitions print_defn_rules print_facts print_induct_rules print_inductives print_interps print_locale print_locales print_methods print_options print_orders print_quot_maps print_quotconsts print_quotients print_quotientsQ3 print_quotmapsQ3 print_record print_rules print_simpset print_state print_statement print_syntax print_term_bindings print_theorems print_theory print_trans_rules print_translation prop proposition quickcheck_generator quickcheck_params quotient_definition quotient_type realizability realizers record schematic_goal section setup setup_lifting simproc_setup sledgehammer_params smt_status specification subclass sublocale subparagraph subsection subsubsection syntax syntax_declaration term termination text text_raw theorem theory thm thm_deps thm_oracles thy_deps translations txt typ type_alias type_notation type_synonym typed_print_translation typedecl typedef unbundle unused_thms value values welcome";

/// Whether `key` is one of the space-separated words of `list`.
pub open spec fn is_word_of(list: Seq<char>, key: Seq<char>) -> bool {
    &&& key.len() > 0
    &&& !key.contains(' ')
    &&& exists|j: int|
        #![trigger occurs_at(list, j, key)]
        occurs_at(list, j, key) && (j == 0 || list[j - 1] == ' ') && (j + key.len() == list.len()
            || list[j + key.len()] == ' ')
}

/// Whether `key` names a top-level structural command.
pub open spec fn is_command(key: Seq<char>) -> bool {
    is_word_of(COMMAND_LIST@, key)
}

/// Position just past the first `g` at or after `i`; one past the end when
/// there is none.
pub open spec fn skip_to(s: Seq<char>, i: int, g: char) -> int
    decreases s.len() - i,
{
    if 0 <= i < s.len() && s[i] != g {
        skip_to(s, i + 1, g)
    } else {
        i + 1
    }
}

/// Whether a scan at `i` may move on to `next`.
pub open spec fn advances(s: Seq<char>, i: int, next: int) -> bool {
    i < next <= s.len() + 1
}

/// Position after a run of newlines, escaped spaces and newline escapes.
pub open spec fn skip_blank(s: Seq<char>, i: int) -> int
    decreases s.len() - i,
{
    if 0 <= i < s.len() {
        if s[i] == '\n' {
            skip_blank(s, i + 1)
        } else if s[i] == '\\' && i + 1 < s.len() && s[i + 1] == ' ' {
            skip_blank(s, i + 2)
        } else if occurs_at(s, i, "\\isanewline"@) && "\\isanewline"@.len() > 0 {
            skip_blank(s, i + "\\isanewline"@.len())
        } else {
            i
        }
    } else {
        i
    }
}

/// The identifier decoded from position `i` on, appended to `name`.
pub open spec fn decode_from(s: Seq<char>, i: int, name: Seq<char>) -> Seq<char>
    decreases s.len() + 1 - i,
{
    if i < 0 || i >= s.len() {
        name
    } else if alphanumeric(s[i]) {
        decode_from(s, i + 1, name.push(s[i]))
    } else if occurs_at(s, i, "\\isactrl"@) {
        let next = skip_to(s, i, ' ');
        if advances(s, i, next) {
            decode_from(s, next, name)
        } else {
            name
        }
    } else if s[i] == '{' {
        let k = skip_to(s, i, '}');
        if !advances(s, i, k) || k > s.len() {
            name
        } else {
            let cmd = s.subrange(i, k);
            let after = skip_to(s, k, '}');
            if cmd == "{\\isacharunderscore}"@ && advances(s, i, after) {
                decode_from(s, after, name.push('_'))
            } else if cmd == "{\\isacharprime}"@ && name.len() > 0 && advances(s, i, after) {
                decode_from(s, after, name.push('\''))
            } else if begins_with(cmd, "{\\isasym"@) && cmd.len() > "{\\isasym"@.len() {
                decode_from(s, k, name + cmd.subrange("{\\isasym"@.len() as int, cmd.len() - 1))
            } else if begins_with(cmd, "{\\isadigit{"@) && cmd.len() > "{\\isadigit{"@.len() {
                decode_from(
                    s,
                    k + 1,
                    name + cmd.subrange("{\\isadigit{"@.len() as int, cmd.len() - 1),
                )
            } else {
                name
            }
        }
    } else {
        name
    }
}

/// The identifier decoded at position `i`, if it is not empty.
pub open spec fn decode(s: Seq<char>, i: int) -> Option<Seq<char>> {
    let n = decode_from(s, i, Seq::empty());
    if n.len() == 0 {
        None
    } else {
        Some(n)
    }
}

/// The word that follows a backslash at `j`: up to the next backslash,
/// brace, percent sign or ASCII whitespace.
pub open spec fn word_end(s: Seq<char>, j: int) -> int
    decreases s.len() - j,
{
    if 0 <= j < s.len() && !(s[j] == '\\' || s[j] == '{' || s[j] == '}' || s[j] == '%'
        || is_ascii_ws(s[j])) {
        word_end(s, j + 1)
    } else {
        j
    }
}

/// Whether the identifier decoded at `j` is a structural command.
pub open spec fn gate_ok(s: Seq<char>, j: int) -> bool {
    match decode(s, j) {
        Some(n) => is_command(n),
        None => false,
    }
}

/// Position of the backslash of the first escape `\goal` at or after `i`;
/// when `gated`, only one followed by a structural command's name counts.
/// A goal of a single space also matches an escaped space.
pub open spec fn find_cmd(s: Seq<char>, i: int, goal: Seq<char>, gated: bool) -> Option<int>
    decreases s.len() + 1 - i,
{
    if i < 0 || i >= s.len() {
        None
    } else if s[i] == '\\' {
        if i + 1 < s.len() && s[i + 1] == ' ' && goal == seq![' '] {
            Some(i)
        } else {
            let e = word_end(s, i + 1);
            let hit = s.subrange(i + 1, e) == goal;
            if hit && (!gated || gate_ok(s, e + 1)) {
                Some(i)
            } else {
                if advances(s, i, e) {
                    find_cmd(s, e, goal, gated)
                } else {
                    None
                }
            }
        }
    } else {
        find_cmd(s, i + 1, goal, gated)
    }
}

proof fn lemma_skip_to_bounds(s: Seq<char>, i: int, g: char)
    requires
        0 <= i,
    ensures
        i < skip_to(s, i, g),
        i <= s.len() ==> skip_to(s, i, g) <= s.len() + 1,
        i > s.len() ==> skip_to(s, i, g) == i + 1,
        skip_to(s, i, g) <= s.len() ==> s[skip_to(s, i, g) - 1] == g,
    decreases s.len() - i,
{
    if 0 <= i < s.len() && s[i] != g {
        lemma_skip_to_bounds(s, i + 1, g);
    }
}

/// Position just past the first `g` at or after `i`; one past the end when
/// there is none.
pub fn skip_char(s: &Vec<char>, i: usize, g: char) -> (r: usize)
    requires
        s@.len() <= isize::MAX,
        i <= s@.len() + 1,
    ensures
        r == skip_to(s@, i as int, g),
        i < r,
        i <= s@.len() ==> r <= s@.len() + 1,
{
    proof {
        lemma_skip_to_bounds(s@, i as int, g);
    }
    let mut j = i;
    while j < s.len() && s[j] != g
        invariant
            i <= j <= s@.len() + 1,
            j > s@.len() ==> j == i,
            skip_to(s@, j as int, g) == skip_to(s@, i as int, g),
        decreases s@.len() - j,
    {
        j += 1;
    }
    j + 1
}

/// Position after a run of newlines, escaped spaces and newline escapes.
pub fn skip_whitespace(s: &Vec<char>, i: usize) -> (r: usize)
    requires
        s@.len() <= isize::MAX,
        i <= s@.len() + 1,
    ensures
        r == skip_blank(s@, i as int),
        i <= r <= s@.len() + 1,
        i <= s@.len() ==> r <= s@.len(),
{
    let nl = chars_of("\\isanewline");
    proof {
        reveal_strlit("\\isanewline");
    }
    let mut j = i;
    while j < s.len()
        invariant
            i <= j <= s@.len() + 1,
            i <= s@.len() ==> j <= s@.len(),
            nl@ == "\\isanewline"@,
            nl@.len() > 0,
            skip_blank(s@, j as int) == skip_blank(s@, i as int),
        ensures
            i <= j <= s@.len() + 1,
            i <= s@.len() ==> j <= s@.len(),
            skip_blank(s@, j as int) == j,
            skip_blank(s@, j as int) == skip_blank(s@, i as int),
        decreases s@.len() - j,
    {
        if s[j] == '\n' {
            j += 1;
        } else if s[j] == '\\' && j + 1 < s.len() && s[j + 1] == ' ' {
            j += 2;
        } else if matches_at(s, j, &nl) {
            j += nl.len();
        } else {
            break;
        }
    }
    j
}

/// Decodes the identifier at position `i`: alphanumerics, escaped
/// underscores and primes, symbol names and digits, skipping control
/// markers. `None` when nothing was decoded.
pub fn take_isaname(s: &Vec<char>, i: usize) -> (r: Option<Vec<char>>)
    requires
        s@.len() <= isize::MAX,
        i <= s@.len() + 1,
    ensures
        r matches Some(n) ==> decode(s@, i as int) == Some(n@),
        r is None ==> decode(s@, i as int) is None,
{
    let ctrl = chars_of("\\isactrl");
    let under = chars_of("{\\isacharunderscore}");
    let prime = chars_of("{\\isacharprime}");
    let sym = chars_of("{\\isasym");
    let digit = chars_of("{\\isadigit{");
    let mut name: Vec<char> = Vec::new();
    let mut j = i;
    let ghost empty: Seq<char> = Seq::empty();
    assert(name@ =~= empty);
    while j < s.len()
        invariant
            j <= s@.len() + 1,
            s@.len() <= isize::MAX,
            name@.len() <= j,
            ctrl@ == "\\isactrl"@,
            under@ == "{\\isacharunderscore}"@,
            prime@ == "{\\isacharprime}"@,
            sym@ == "{\\isasym"@,
            digit@ == "{\\isadigit{"@,
            decode_from(s@, j as int, name@) == decode_from(s@, i as int, empty),
        ensures
            decode_from(s@, j as int, name@) == name@,
            decode_from(s@, j as int, name@) == decode_from(s@, i as int, empty),
        decreases s@.len() + 1 - j,
    {
        let c = s[j];
        if is_alnum(c) {
            name.push(c);
            j += 1;
        } else if matches_at(s, j, &ctrl) {
            j = skip_char(s, j, ' ');
        } else if c == '{' {
            let k = skip_char(s, j, '}');
            if k > s.len() {
                assert(decode_from(s@, j as int, name@) == name@);
                break;
            }
            let ghost cmd = s@.subrange(j as int, k as int);
            let whole_under = k - j == under.len() && matches_at(s, j, &under);
            let whole_prime = k - j == prime.len() && matches_at(s, j, &prime);
            assert(whole_under == (cmd == under@)) by {
                if k - j == under.len() {
                    assert(s@.subrange(j as int, j + under@.len()) == cmd);
                }
                if cmd == under@ {
                    assert(k - j == under@.len());
                }
            }
            assert(whole_prime == (cmd == prime@)) by {
                if k - j == prime.len() {
                    assert(s@.subrange(j as int, j + prime@.len()) == cmd);
                }
                if cmd == prime@ {
                    assert(k - j == prime@.len());
                }
            }
            if whole_under {
                name.push('_');
                j = skip_char(s, k, '}');
            } else if whole_prime && name.len() > 0 {
                name.push('\'');
                j = skip_char(s, k, '}');
            } else if sym.len() < k - j && matches_at(s, j, &sym) {
                assert(begins_with(cmd, sym@)) by {
                    assert(cmd.subrange(0, sym@.len() as int) =~= s@.subrange(
                        j as int,
                        j + sym@.len(),
                    ));
                }
                let ghost old_name = name@;
                push_range(&mut name, s, j + sym.len(), k - 1);
                assert(cmd.subrange(sym@.len() as int, cmd.len() - 1) =~= s@.subrange(
                    j + sym@.len(),
                    k - 1,
                ));
                j = k;
            } else if digit.len() < k - j && matches_at(s, j, &digit) {
                assert(!begins_with(cmd, sym@) || cmd.len() <= sym@.len()) by {
                    if begins_with(cmd, sym@) && cmd.len() > sym@.len() {
                        assert(cmd.subrange(0, sym@.len() as int) =~= s@.subrange(
                            j as int,
                            j + sym@.len(),
                        ));
                    }
                }
                assert(begins_with(cmd, digit@)) by {
                    assert(cmd.subrange(0, digit@.len() as int) =~= s@.subrange(
                        j as int,
                        j + digit@.len(),
                    ));
                }
                push_range(&mut name, s, j + digit.len(), k - 1);
                assert(cmd.subrange(digit@.len() as int, cmd.len() - 1) =~= s@.subrange(
                    j + digit@.len(),
                    k - 1,
                ));
                j = k + 1;
            } else {
                assert(!begins_with(cmd, sym@) || cmd.len() <= sym@.len()) by {
                    if begins_with(cmd, sym@) && cmd.len() > sym@.len() {
                        assert(cmd.subrange(0, sym@.len() as int) =~= s@.subrange(
                            j as int,
                            j + sym@.len(),
                        ));
                    }
                }
                assert(!begins_with(cmd, digit@) || cmd.len() <= digit@.len()) by {
                    if begins_with(cmd, digit@) && cmd.len() > digit@.len() {
                        assert(cmd.subrange(0, digit@.len() as int) =~= s@.subrange(
                            j as int,
                            j + digit@.len(),
                        ));
                    }
                }
                assert(decode_from(s@, j as int, name@) == name@);
                break;
            }
        } else {
            assert(decode_from(s@, j as int, name@) == name@);
            break;
        }
    }
    assert(decode_from(s@, i as int, Seq::empty()) == name@) by {
        assert(empty =~= Seq::<char>::empty());
    }
    if name.len() == 0 {
        None
    } else {
        Some(name)
    }
}

/// Whether `key` names a top-level structural command.
pub fn is_outer_cmd(key: &Vec<char>) -> (r: bool)
    ensures
        r == is_command(key@),
{
    let list = chars_of(COMMAND_LIST);
    if key.len() == 0 {
        return false;
    }
    let mut t: usize = 0;
    while t < key.len()
        invariant
            t <= key.len(),
            forall|u: int| 0 <= u < t ==> key@[u] != ' ',
        decreases key.len() - t,
    {
        if key[t] == ' ' {
            assert(key@.contains(' ')) by {
                assert(key@[t as int] == ' ');
            }
            return false;
        }
        t += 1;
    }
    assert(!key@.contains(' '));
    let mut j: usize = 0;
    while j < list.len()
        invariant
            !key@.contains(' '),
            j <= list@.len(),
            list@ == COMMAND_LIST@,
            key@.len() > 0,
            forall|u: int|
                #![trigger occurs_at(list@, u, key@)]
                0 <= u < j ==> !(occurs_at(list@, u, key@) && (u == 0 || list@[u - 1] == ' ') && (
                u + key@.len() == list@.len() || list@[u + key@.len()] == ' ')),
        decreases list@.len() - j,
    {
        if (j == 0 || list[j - 1] == ' ') && matches_at(&list, j, key) {
            let e = j + key.len();
            if e == list.len() || list[e] == ' ' {
                assert(occurs_at(list@, j as int, key@) && (j == 0 || list@[j - 1] == ' ') && (j
                    + key@.len() == list@.len() || list@[j + key@.len()] == ' '));
                return true;
            }
        }
        j += 1;
    }
    false
}

/// Position of the backslash of the first escape `\goal` at or after `i`;
/// when `gated`, only one followed by a structural command's name counts.
pub fn read_until_cmd(s: &Vec<char>, i: usize, goal: &Vec<char>, gated: bool) -> (r: Option<
    usize,
>)
    requires
        s@.len() <= isize::MAX,
        i <= s@.len() + 1,
    ensures
        r matches Some(k) ==> find_cmd(s@, i as int, goal@, gated) == Some(k as int) && i <= k
            < s@.len(),
        r is None ==> find_cmd(s@, i as int, goal@, gated) is None,
{
    let mut j = i;
    while j < s.len()
        invariant
            i <= j <= s@.len() + 1,
            s@.len() <= isize::MAX,
            find_cmd(s@, j as int, goal@, gated) == find_cmd(s@, i as int, goal@, gated),
        ensures
            find_cmd(s@, j as int, goal@, gated) is None,
            find_cmd(s@, j as int, goal@, gated) == find_cmd(s@, i as int, goal@, gated),
        decreases s@.len() + 1 - j,
    {
        if s[j] != '\\' {
            j += 1;
            continue;
        }
        if j + 1 < s.len() && s[j + 1] == ' ' && goal.len() == 1 && goal[0] == ' ' {
            assert(goal@ =~= seq![' ']);
            return Some(j);
        }
        assert(!(j + 1 < s@.len() && s@[j + 1] == ' ' && goal@ == seq![' '])) by {
            if goal@ == seq![' '] {
                assert(goal@.len() == 1 && goal@[0] == ' ');
            }
        }
        let mut e = j + 1;
        while e < s.len()
            invariant
                j < e <= s@.len(),
                word_end(s@, e as int) == word_end(s@, j + 1),
            ensures
                word_end(s@, e as int) == e,
                j < e <= s@.len(),
                word_end(s@, e as int) == word_end(s@, j + 1),
            decreases s@.len() - e,
        {
            let d = s[e];
            if d == '\\' || d == '{' || d == '}' || d == '%' || d == ' ' || d == '\t' || d == '\n'
                || d == '\u{c}' || d == '\r' {
                break;
            }
            e += 1;
        }
        let hit = e - (j + 1) == goal.len() && matches_at(s, j + 1, goal);
        assert(hit == (s@.subrange(j + 1, e as int) == goal@)) by {
            if s@.subrange(j + 1, e as int) == goal@ {
                assert(e - (j + 1) == goal@.len());
            }
        }
        if hit {
            if !gated {
                return Some(j);
            }
            let name = take_isaname(s, e + 1);
            let ok = match name {
                Some(n) => is_outer_cmd(&n),
                None => false,
            };
            if ok {
                return Some(j);
            }
        }
        j = e;
    }
    None
}

} // verus!
