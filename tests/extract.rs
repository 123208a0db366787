use isasnips::extract_snippets;

fn run(doc: &str, theory: &str) -> String {
    extract_snippets(doc.to_string(), theory.to_string())
}

#[test]
fn single_lemma_gives_one_line_snippet() {
    let out = run("\\isacommand{lemma}\\ foo:\\ \"True\"\\isanewline", "");
    assert_eq!(
        out,
        "\\SNIP{lemma:foo-0}{%\n\\isacommand{lemma}\\ foo:\\ \"True\"%\n}%\n"
    );
}

#[test]
fn repeated_name_gets_suffix() {
    let doc = "\\isacommand{lemma}\\ foo:\\ \"True\"\\isanewline\n\\isacommand{lemma}\\ foo:\\ \"False\"\\isanewline";
    let out = run(doc, "");
    assert_eq!(
        out,
        "\\SNIP{lemma:foo-0}{%\n\\isacommand{lemma}\\ foo:\\ \"True\"%\n}%\n\\SNIP{lemma:foo-1-0}{%\n\\isacommand{lemma}\\ foo:\\ \"False\"%\n}%\n"
    );
}

#[test]
fn third_repeat_gets_suffix_two() {
    let doc = "\\isacommand{lemma}\\ foo:\\ a\\isanewline\n\\isacommand{lemma}\\ foo:\\ b\\isanewline\n\\isacommand{lemma}\\ foo:\\ c\\isanewline";
    let out = run(doc, "");
    assert!(out.contains("\\SNIP{lemma:foo-0}{"));
    assert!(out.contains("\\SNIP{lemma:foo-1-0}{"));
    assert!(out.contains("\\SNIP{lemma:foo-2-0}{"));
    let first = out.find("lemma:foo-1-0").unwrap();
    let second = out.find("lemma:foo-2-0").unwrap();
    assert!(first < second);
    assert!(!out.contains("{%\n\n"));
}

#[test]
fn cartouche_is_lifted_before_its_line() {
    let doc = "\\isacommand{definition}\\ {\\isacartoucheopen}x+1{\\isacartoucheclose}\\isanewline";
    let out = run(doc, "");
    assert_eq!(
        out,
        "\\SNIP{definition:x-0-0}{%\nx+1%\n}%\n\\SNIP{definition:x-0}{%\n\\isacommand{definition}\\ {\\Cartouche{definition:x}{0}{0}}%\n}%\n"
    );
}

#[test]
fn two_cartouches_keep_their_order() {
    let doc = "\\isacommand{lemma}\\ foo:\\ {\\isacartoucheopen}a{\\isacartoucheclose}\\ and\\ {\\isacartoucheopen}b{\\isacartoucheclose}\\isanewline";
    let out = run(doc, "");
    let a = out.find("\\SNIP{lemma:foo-0-0}{%\na%\n}").unwrap();
    let b = out.find("\\SNIP{lemma:foo-0-1}{%\nb%\n}").unwrap();
    let line = out.find("\\SNIP{lemma:foo-0}{").unwrap();
    assert!(a < b && b < line);
    assert!(out.contains("{\\Cartouche{lemma:foo}{0}{0}}"));
    assert!(out.contains("{\\Cartouche{lemma:foo}{0}{1}}"));
}

#[test]
fn unterminated_cartouche_is_left_alone() {
    let doc = "\\isacommand{lemma}\\ foo:\\ {\\isacartoucheopen}x\\isanewline";
    let out = run(doc, "");
    assert_eq!(
        out,
        "\\SNIP{lemma:foo-0}{%\n\\isacommand{lemma}\\ foo:\\ {\\isacartoucheopen}x%\n}%\n"
    );
}

#[test]
fn empty_document_gives_empty_output() {
    assert_eq!(run("", ""), "");
}

#[test]
fn document_without_commands_gives_empty_output() {
    assert_eq!(run("hello \\isamarkupfalse world\n", "Thy"), "");
}

#[test]
fn theory_prefix_is_escaped() {
    let out = run("\\isacommand{lemma}\\ foo{\\isacharunderscore}{\\kern0pt}bar:\\ \"True\"\\isanewline", "My_Thy");
    assert_eq!(
        out,
        "\\SNIP{My-Thy:lemma:foo-bar-0}{%\n\\isacommand{lemma}\\ foo{\\isacharunderscore}{\\kern0pt}bar:\\ \"True\"%\n}%\n"
    );
}

#[test]
fn trailing_markup_lines_are_dropped() {
    let doc = "\\isacommand{lemma}\\ foo:\\ \"True\"\\isanewline\n%\n\\isadelimproof\n";
    let out = run(doc, "");
    assert_eq!(
        out,
        "\\SNIP{lemma:foo-0}{%\n\\isacommand{lemma}\\ foo:\\ \"True\"%\n}%\n"
    );
}

#[test]
fn markup_ends_the_chunk() {
    let doc = "\\isacommand{lemma}\\ foo:\\ a\\isanewline\n\\isamarkupsection{Later}\nmore text\\isanewline\n";
    let out = run(doc, "");
    assert_eq!(out, "\\SNIP{lemma:foo-0}{%\n\\isacommand{lemma}\\ foo:\\ a%\n}%\n");
}

#[test]
fn preamble_is_skipped() {
    let doc = "preamble text\n\\isacommand{lemma}\\ foo:\\ a\\isanewline";
    let out = run(doc, "");
    assert!(!out.contains("preamble"));
    assert!(out.starts_with("\\SNIP{lemma:foo-0}{"));
}

#[test]
fn unnamed_chunk_uses_hex_digest_and_is_deterministic() {
    let doc = "\\isacommand{lemma}\\isanewline\n";
    let out = run(doc, "");
    assert_eq!(out, run(doc, ""));
    let start = "\\SNIP{lemma:".len();
    assert!(out.starts_with("\\SNIP{lemma:"));
    let rest = &out[start..];
    let end = rest.find('-').unwrap();
    let hex = &rest[..end];
    assert!(!hex.is_empty());
    assert!(hex.chars().all(|c| c.is_ascii_hexdigit() && !c.is_ascii_uppercase()));
}

#[test]
fn names_are_distinct_in_a_small_document() {
    let doc = "\\isacommand{lemma}\\ foo:\\ {\\isacartoucheopen}a{\\isacartoucheclose}\\isanewline\nb\\isanewline\n\\isacommand{lemma}\\ foo:\\ c\\isanewline\n\\isacommand{lemma}\\ bar:\\ d\\isanewline";
    let out = run(doc, "T");
    let mut names: Vec<&str> = Vec::new();
    for part in out.split("\\SNIP{").skip(1) {
        names.push(part.split('}').next().unwrap());
    }
    assert_eq!(names.len(), 5);
    let mut sorted = names.clone();
    sorted.sort();
    sorted.dedup();
    assert_eq!(sorted.len(), names.len());
}

#[test]
fn command_after_rejected_command_word_is_found() {
    let out = run("\\isacommand\\isacommand{lemma}\\ foo:\\ a", "");
    assert_eq!(
        out,
        "\\SNIP{lemma:foo-0}{%\n\\isacommand{lemma}\\ foo:\\ a%\n}%\n"
    );
}
