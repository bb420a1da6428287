use regex::Regex;
use std::path::{Component, Path, PathBuf};
use stignore::pattern::{process_patterns, PatternError};
use stignore::platform::Platform;

/// What the rewriting gives, as plain values: the text, the refused lines, or
/// neither where no pattern was supplied.
#[derive(Debug, PartialEq)]
enum Rewriting {
    Text(String),
    Refused(Vec<String>),
    Nothing,
}

fn rewriting(inputs: &[String], prefix: Option<&Vec<String>>) -> Rewriting {
    match process_patterns(&inputs.to_vec(), prefix, Platform::Unix) {
        Ok(text) => Rewriting::Text(text),
        Err(PatternError::Invalid(lines)) => Rewriting::Refused(lines),
        Err(PatternError::NoPatterns) => Rewriting::Nothing,
    }
}

fn only_markers(line: &str) -> bool {
    let mut rest = line;
    while !rest.is_empty() {
        let next = rest
            .strip_prefix('!')
            .or_else(|| rest.strip_prefix("(?d)"))
            .or_else(|| rest.strip_prefix("(?i)"));
        match next {
            Some(tail) => rest = tail,
            None => return false,
        }
    }
    true
}

/// The same rewriting, done with an expression for the shape of a pattern and
/// with the paths of the standard library.
fn expected(shape: &Regex, inputs: &[String], below: Option<&str>) -> Rewriting {
    let mut text = String::new();
    let mut refused = Vec::new();
    for line in inputs.iter().flat_map(|input| input.split('\n')).map(str::trim) {
        if line.is_empty() || line.starts_with("//") {
            text.push_str(line);
            text.push('\n');
        } else if only_markers(line) {
            refused.push(line.to_string());
        } else {
            let groups = shape.captures(line).expect("a line with a path has the shape");
            text.push_str(&groups[1]);
            match below {
                None => text.push_str(&groups[2]),
                Some(dir) => {
                    let names = Path::new(&groups[2]).components().skip_while(|c| {
                        matches!(c, Component::RootDir | Component::Prefix(_) | Component::CurDir)
                    });
                    let path: PathBuf = Path::new(dir).components().chain(names).collect();
                    text.push_str(&path.display().to_string());
                }
            }
            text.push('\n');
        }
    }
    if !refused.is_empty() {
        Rewriting::Refused(refused)
    } else if text.trim().is_empty() {
        Rewriting::Nothing
    } else {
        Rewriting::Text(text)
    }
}

/// Every text over `alphabet` of at most `len` characters.
fn texts_over(alphabet: &[char], len: usize) -> Vec<String> {
    let mut samples: Vec<String> = vec![String::new()];
    let mut start = 0;
    for _ in 0..len {
        let end = samples.len();
        for i in start..end {
            for &c in alphabet {
                let mut s = samples[i].clone();
                s.push(c);
                samples.push(s);
            }
        }
        start = end;
    }
    samples
}

#[test]
fn rewriting_of_single_texts_agrees_with_expression_and_standard_paths() {
    let shape = Regex::new(r"^((?:#include )|(?:(?:\(\?[di]\)|!))*) *(.+)$").unwrap();
    let prefix = vec!["sub".to_string(), "dir".to_string()];
    let none: Vec<String> = Vec::new();
    let mut texts = 0;
    let mut refusals = 0;
    for input in texts_over(&['!', '(', '?', 'd', ')', ' ', 'a', '/', '.', '\n'], 5) {
        let inputs = [input];
        let copied = rewriting(&inputs, None);
        assert_eq!(copied, expected(&shape, &inputs, None), "{:?}", inputs);
        let below = rewriting(&inputs, Some(&prefix));
        assert_eq!(below, expected(&shape, &inputs, Some("sub/dir")), "{:?}", inputs);
        let at_root = rewriting(&inputs, Some(&none));
        assert_eq!(at_root, expected(&shape, &inputs, Some("")), "{:?}", inputs);
        match below {
            Rewriting::Text(_) => texts += 1,
            Rewriting::Refused(_) => refusals += 1,
            Rewriting::Nothing => {}
        }
    }
    assert!(texts > 50000);
    assert!(refusals > 1000);
}

#[test]
fn rewriting_of_several_texts_agrees_with_expression_and_standard_paths() {
    let shape = Regex::new(r"^((?:#include )|(?:(?:\(\?[di]\)|!))*) *(.+)$").unwrap();
    let prefix = vec!["a b".to_string(), "..".to_string(), "c".to_string()];
    let parts = [
        "", " ", "!", "(?i)", "#include ", "#include", "//", "// x", "x", "./x/../y/", "/",
        "\n", " x \n!", "(?d) ! y//z", "\t", "a\r\nb\r\n",
    ];
    for one in parts {
        for two in parts {
            for three in parts {
                let inputs = [one.to_string(), format!("{}{}", two, three), three.to_string()];
                let copied = rewriting(&inputs, None);
                assert_eq!(copied, expected(&shape, &inputs, None), "{:?}", inputs);
                assert_eq!(
                    rewriting(&inputs, Some(&prefix)),
                    expected(&shape, &inputs, Some("a b/../c")),
                    "{:?}",
                    inputs
                );
            }
        }
    }
}
