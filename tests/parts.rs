use isasnips::files::{has_ext, is_ascii_capitalized, theory_name};
use isasnips::ident::{chunk_theory, cmd_chunk, name_chunk};
use isasnips::lines::{has_visible_content, line_chunk};
use isasnips::scan::{is_outer_cmd, read_until_cmd, skip_char, skip_whitespace, take_isaname};
use isasnips::snippets::{cartouche, escape_underscores, lift_cartouches, replace_all};

fn v(s: &str) -> Vec<char> {
    s.chars().collect()
}

fn s(v: &[char]) -> String {
    v.iter().collect()
}

#[test]
fn only_capitalized_tex_files_are_theories() {
    assert_eq!(theory_name("Foo.tex"), Some("Foo".to_string()));
    assert_eq!(theory_name("bar.tex"), None);
    assert_eq!(theory_name("Foo.txt"), None);
    assert_eq!(theory_name("Foo.Bar.tex"), Some("Foo.Bar".to_string()));
}

#[test]
fn extensions_follow_the_last_dot() {
    assert!(has_ext("a.tex", "tex"));
    assert!(has_ext("a.b.tex", "tex"));
    assert!(!has_ext(".tex", "tex"));
    assert!(!has_ext("tex", "tex"));
    assert!(!has_ext("a.txt", "tex"));
    assert!(!has_ext("a.texx", "tex"));
}

#[test]
fn capitalized_names() {
    assert!(is_ascii_capitalized("Foo"));
    assert!(!is_ascii_capitalized("bar"));
    assert!(!is_ascii_capitalized(""));
    assert!(!is_ascii_capitalized("Ärger"));
}

#[test]
fn command_set_membership() {
    assert!(is_outer_cmd(&v("lemma")));
    assert!(is_outer_cmd(&v("ML")));
    assert!(is_outer_cmd(&v("welcome")));
    assert!(is_outer_cmd(&v("type_synonym")));
    assert!(!is_outer_cmd(&v("lem")));
    assert!(!is_outer_cmd(&v("foo")));
    assert!(!is_outer_cmd(&v("")));
    assert!(!is_outer_cmd(&v("lemma lemmas")));
}

#[test]
fn decodes_escaped_identifiers() {
    let d = |t: &str| take_isaname(&v(t), 0).map(|n| s(&n));
    assert_eq!(d("foo{\\isacharunderscore}{\\kern0pt}bar:"), Some("foo_bar".to_string()));
    assert_eq!(d("{\\isasymphi}prop1 x"), Some("phiprop1".to_string()));
    assert_eq!(d("x{\\isadigit{1}}{\\isadigit{2}}y"), Some("x12y".to_string()));
    assert_eq!(d("f{\\isacharprime}{\\kern0pt}\\ "), Some("f'".to_string()));
    assert_eq!(d("{\\isacharprime}{\\kern0pt}a"), None);
    assert_eq!(d("\\isactrlsub x"), Some("x".to_string()));
    assert_eq!(d(":foo"), None);
    assert_eq!(d("{unclosed"), None);
    assert_eq!(take_isaname(&v("ab"), 3), None);
}

#[test]
fn scanner_positions() {
    let t = v("ab}cd");
    assert_eq!(skip_char(&t, 0, '}'), 3);
    assert_eq!(skip_char(&t, 0, 'z'), 6);
    let w = v("\n\\ \\isanewline x");
    assert_eq!(skip_whitespace(&w, 0), 14);
    let c = v("ab \\isacommand{foo} \\isacommand{lemma}");
    assert_eq!(read_until_cmd(&c, 0, &v("isacommand"), false), Some(3));
    assert_eq!(read_until_cmd(&c, 0, &v("isacommand"), true), Some(20));
    assert_eq!(read_until_cmd(&c, 21, &v("isacommand"), true), None);
    assert_eq!(read_until_cmd(&v("a\\ b"), 0, &v(" "), false), Some(1));
}

#[test]
fn chunks_split_before_commands() {
    let doc = v("pre\n\\isacommand{lemma}\\ a\n\\isacommand{theorem}\\ b");
    let cs: Vec<String> = chunk_theory(&doc).iter().map(|c| s(c)).collect();
    assert_eq!(
        cs,
        vec![
            "pre\n".to_string(),
            "\\isacommand{lemma}\\ a\n".to_string(),
            "\\isacommand{theorem}\\ b".to_string()
        ]
    );
}

#[test]
fn chunks_start_at_command_escapes() {
    let doc = v("x\\isacommand{foo}y\\isacommand{lemma}\\ a\\isacommand{end}");
    let cs: Vec<String> = chunk_theory(&doc).iter().map(|c| s(c)).collect();
    assert_eq!(
        cs,
        vec![
            "x\\isacommand{foo}y".to_string(),
            "\\isacommand{lemma}\\ a".to_string(),
            "\\isacommand{end}".to_string()
        ]
    );
}

#[test]
fn rejected_command_word_does_not_hide_the_next_escape() {
    let doc = v("\\isacommand\\isacommand{lemma}\\ foo");
    assert_eq!(read_until_cmd(&doc, 0, &v("isacommand"), true), Some(11));
    let cs: Vec<String> = chunk_theory(&doc).iter().map(|c| s(c)).collect();
    assert_eq!(
        cs,
        vec!["\\isacommand".to_string(), "\\isacommand{lemma}\\ foo".to_string()]
    );
    assert_eq!(s(&cmd_chunk(&doc)), "lemma");
}

#[test]
fn command_and_name_of_chunks() {
    let c = v("\\isacommand{lemma}\\ foo:\\ \"True\"");
    assert_eq!(s(&cmd_chunk(&c)), "lemma");
    assert_eq!(s(&name_chunk(&c)), "foo");
    assert_eq!(s(&cmd_chunk(&v("no command here"))), "");
}

#[test]
fn name_after_parenthesised_qualifier() {
    let c = v("\\isacommand{function}\\ {\\isacharparenleft}{\\kern0pt}sequential{\\isacharparenright}{\\kern0pt}\\ fact");
    assert_eq!(s(&name_chunk(&c)), "fact");
}

#[test]
fn name_after_type_variable() {
    let c = v("\\isacommand{datatype}\\ {\\isacharprime}{\\kern0pt}a\\ tree\\ {\\isacharequal}{\\kern0pt}");
    assert_eq!(s(&name_chunk(&c)), "tree");
}

#[test]
fn name_inside_cartouche() {
    let c = v("\\isacommand{definition}\\ {\\isacartoucheopen}x+1{\\isacartoucheclose}");
    assert_eq!(s(&name_chunk(&c)), "x");
}

#[test]
fn lines_are_grouped_and_trimmed() {
    let c = v("\\isacommand{lemma}\\ a\\isanewline\nshows\\ b\n\\ \\ c\\isanewline\n%\n\\\n\\isadelimproof\n");
    let ls: Vec<String> = line_chunk(&c).iter().map(|l| s(l)).collect();
    assert_eq!(
        ls,
        vec![
            "\\isacommand{lemma}\\ a\\isanewline".to_string(),
            "shows\\ b\n\\ \\ c".to_string()
        ]
    );
}

#[test]
fn text_blocks_get_their_own_line() {
    let c = v("\\isacommand{text}\\ a\n\\begin{isamarkuptext}\nSome text\n\\end{isamarkuptext}\n");
    let ls: Vec<String> = line_chunk(&c).iter().map(|l| s(l)).collect();
    assert_eq!(
        ls,
        vec![
            "\\isacommand{text}\\ a".to_string(),
            "\\begin{isamarkuptext}\nSome text\n\\end{isamarkuptext}".to_string()
        ]
    );
}

#[test]
fn visible_content() {
    assert!(has_visible_content(&v("word")));
    assert!(has_visible_content(&v("\\isachardot")));
    assert!(has_visible_content(&v("x\\isasymphi")));
    assert!(!has_visible_content(&v("\\isadelimproof\n")));
    assert!(!has_visible_content(&v("%\n  ")));
    assert!(!has_visible_content(&v("")));
}

#[test]
fn cartouche_bodies_may_close_on_later_lines() {
    let line = v("a {\\isacartoucheopen}x");
    let full = v("a {\\isacartoucheopen}x y{\\isacartoucheclose}");
    let cs: Vec<String> = lift_cartouches(&line, &full).iter().map(|c| s(c)).collect();
    assert_eq!(cs, vec!["x y".to_string()]);
    let none = lift_cartouches(&line, &line);
    assert!(none.is_empty());
}

#[test]
fn placeholders_and_replacement() {
    assert_eq!(s(&cartouche(&v("thy:lemma:foo"), 2, 10)), "{\\Cartouche{thy:lemma:foo}{2}{10}}");
    assert_eq!(s(&escape_underscores(&v("a_b__c"))), "a-b--c");
    assert_eq!(s(&replace_all(&v("xabyabab"), &v("ab"), &v("Z"))), "xZyZZ");
    assert_eq!(s(&replace_all(&v("aaa"), &v("aa"), &v("b"))), "ba");
}
