use regex::Regex;
use stignore::grammar::{directive_word, matches_at, names_secondary, scan_pattern, secondary_word};

fn chars(s: &str) -> Vec<char> {
    s.chars().collect()
}

/// The modifier prefix and the path of a line, or `None` where it has no path.
fn parts(line: &str) -> Option<(String, String)> {
    let text = chars(line);
    let (m, p) = scan_pattern(&text);
    assert!(m <= p && p <= text.len());
    if p == text.len() {
        None
    } else {
        Some((text[..m].iter().collect(), text[p..].iter().collect()))
    }
}

fn some(modifier: &str, path: &str) -> Option<(String, String)> {
    Some((modifier.to_string(), path.to_string()))
}

fn pattern_expression() -> Regex {
    Regex::new(r"^((?:#include )|(?:(?:\(\?[di]\)|!))*) *(.+)$").unwrap()
}

fn directive_expression() -> Regex {
    Regex::new(r"^\s*#include\s+\.stignore_sync\s*$").unwrap()
}

/// Every text over `alphabet` of at most `len` characters.
fn texts_over(alphabet: &[char], len: usize) -> Vec<String> {
    let mut samples: Vec<String> = vec![String::new()];
    let mut start = 0;
    for _ in 0..len {
        let end = samples.len();
        for i in start..end {
            for &c in alphabet {
                let mut s = samples[i].clone();
                s.push(c);
                samples.push(s);
            }
        }
        start = end;
    }
    samples
}

#[test]
fn words() {
    assert_eq!(directive_word(), chars("#include"));
    assert_eq!(secondary_word(), chars(".stignore_sync"));
}

#[test]
fn word_at_an_index() {
    let text = chars("ab#include x");
    assert!(matches_at(&text, 2, &directive_word()));
    assert!(!matches_at(&text, 1, &directive_word()));
    assert!(!matches_at(&text, 5, &directive_word()));
    assert!(!matches_at(&text, 100, &directive_word()));
    assert!(matches_at(&text, 12, &[]));
    assert!(!matches_at(&text, 13, &[]));
    assert!(matches_at(&text, 11, &['x']));
    assert!(!matches_at(&text, 11, &['x', 'y']));
}

#[test]
fn pattern_without_modifier() {
    assert_eq!(parts("foo.txt"), some("", "foo.txt"));
    assert_eq!(parts("a"), some("", "a"));
    assert_eq!(parts("dir/sub dir/file"), some("", "dir/sub dir/file"));
    let text = "not a valid $$$ pattern with no path";
    assert_eq!(parts(text), some("", text));
}

#[test]
fn pattern_with_markers() {
    assert_eq!(parts("!bar/*"), some("!", "bar/*"));
    assert_eq!(parts("(?d)foo"), some("(?d)", "foo"));
    assert_eq!(parts("(?i)foo"), some("(?i)", "foo"));
    assert_eq!(parts("(?d)(?i)!foo"), some("(?d)(?i)!", "foo"));
    assert_eq!(parts("!(?i)!!(?d)x"), some("!(?i)!!(?d)", "x"));
    assert_eq!(parts("(?x)foo"), some("", "(?x)foo"));
    assert_eq!(parts("(?d foo"), some("", "(?d foo"));
    assert_eq!(parts("(?D)foo"), some("", "(?D)foo"));
}

#[test]
fn spaces_behind_the_modifier_are_dropped() {
    assert_eq!(parts("!  foo"), some("!", "foo"));
    assert_eq!(parts("(?d) !foo"), some("(?d)", "!foo"));
    assert_eq!(parts("! (?i)x"), some("!", "(?i)x"));
    assert_eq!(parts("!\tfoo"), some("!", "\tfoo"));
    assert_eq!(parts("  foo"), some("", "foo"));
}

#[test]
fn pattern_with_directive() {
    assert_eq!(parts("#include more.txt"), some("#include ", "more.txt"));
    assert_eq!(parts("#include    more.txt"), some("#include ", "more.txt"));
    assert_eq!(parts("#include"), some("", "#include"));
    assert_eq!(parts("#includemore"), some("", "#includemore"));
    assert_eq!(parts("#include\tmore"), some("", "#include\tmore"));
    assert_eq!(parts("#include !x"), some("#include ", "!x"));
    assert_eq!(parts("!#include x"), some("!", "#include x"));
}

#[test]
fn line_of_markers_alone_has_no_path() {
    assert_eq!(parts("!"), None);
    assert_eq!(parts("!!"), None);
    assert_eq!(parts("(?d)"), None);
    assert_eq!(parts("(?i)(?d)!"), None);
    assert_eq!(parts("! "), None);
    assert_eq!(parts(""), None);
    assert_eq!(parts("   "), None);
    assert_eq!(parts("#include "), None);
}

/// Wherever a line has a path, the modifier prefix and the path are the two
/// groups that the expression of the same grammar captures. A line that has
/// none is a run of markers and nothing else.
#[test]
fn pattern_grammar_agrees_with_its_expression() {
    let expression = pattern_expression();
    let mut lines = texts_over(&['!', '(', '?', 'd', 'i', ')', ' ', 'a', '#'], 5);
    for tail in texts_over(&['!', ' ', 'a', '('], 3) {
        lines.push(format!("#include{}", tail));
        lines.push(format!("#include {}", tail));
        lines.push(format!("(?d)(?i){}", tail));
        lines.push(format!("!(?i){}", tail));
    }
    let mut with_path = 0;
    let mut without = 0;
    for line in &lines {
        if line.is_empty() || line.trim() != line {
            continue;
        }
        let found = expression.captures(line).expect("the expression matches every line");
        let groups = (found[1].to_string(), found[2].to_string());
        match parts(line) {
            Some(mine) => {
                assert_eq!(mine, groups, "{:?}", line);
                with_path += 1;
            }
            None => {
                let mut rest: &str = line;
                while !rest.is_empty() {
                    rest = rest
                        .strip_prefix('!')
                        .or_else(|| rest.strip_prefix("(?d)"))
                        .or_else(|| rest.strip_prefix("(?i)"))
                        .expect("a line without a path holds markers only");
                }
                without += 1;
            }
        }
    }
    assert!(with_path > 30000);
    assert!(without > 5);
}

#[test]
fn directive_line() {
    assert!(names_secondary(&chars("#include .stignore_sync")));
    assert!(names_secondary(&chars("  #include .stignore_sync  ")));
    assert!(names_secondary(&chars("\t#include\t \t.stignore_sync\r")));
    assert!(names_secondary(&chars("#include\u{a0}.stignore_sync\u{3000}")));
    assert!(!names_secondary(&chars("#include.stignore_sync")));
    assert!(!names_secondary(&chars("#include .stignore")));
    assert!(!names_secondary(&chars("#include .stignore_sync2")));
    assert!(!names_secondary(&chars("# include .stignore_sync")));
    assert!(!names_secondary(&chars("// #include .stignore_sync")));
    assert!(!names_secondary(&chars("#include .stignore_sync x")));
    assert!(!names_secondary(&chars("#Include .stignore_sync")));
    assert!(!names_secondary(&chars("")));
    assert!(!names_secondary(&chars("#include")));
    assert!(!names_secondary(&chars("#include ")));
    assert!(!names_secondary(&chars(".stignore_sync")));
}

#[test]
fn directive_grammar_agrees_with_its_expression() {
    let expression = directive_expression();
    let befores = ["", " ", "\t ", "\u{a0}", "x", "\n"];
    let tokens = ["#include", "#includes", "include", "#Include", "#includ", ""];
    let betweens = ["", " ", "  \t", "\u{3000}", "x", " x ", "\r\n"];
    let names =
        [".stignore_sync", ".stignore", ".stignore_sync2", "stignore_sync", ".stignore_syn", ""];
    let afters = ["", " ", "\r", " x", "\u{2003}\t", "\n"];
    let mut accepted = 0;
    let mut count = 0;
    for before in befores {
        for token in tokens {
            for between in betweens {
                for name in names {
                    for after in afters {
                        let line = format!("{}{}{}{}{}", before, token, between, name, after);
                        let mine = names_secondary(&chars(&line));
                        assert_eq!(mine, expression.is_match(&line), "{:?}", line);
                        count += 1;
                        if mine {
                            accepted += 1;
                        }
                    }
                }
            }
        }
    }
    assert_eq!(count, 6 * 6 * 7 * 6 * 6);
    assert_eq!(accepted, 5 * 4 * 5);
}
