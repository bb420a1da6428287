use stignore::text::{
    all_whitespace, chars_of, is_whitespace, push_chars, split, string_of, trim_bounds, Delimiter,
};

fn chars(s: &str) -> Vec<char> {
    s.chars().collect()
}

fn trimmed(s: &str) -> String {
    let text = chars(s);
    let (a, b) = trim_bounds(&text);
    text[a..b].iter().collect()
}

fn cut(s: &str, d: Delimiter) -> Vec<String> {
    split(&chars(s), d).iter().map(|piece| piece.iter().collect()).collect()
}

#[test]
fn whitespace_is_the_unicode_property() {
    let mut c = 0u32;
    while c <= 0x10FFFF {
        if let Some(ch) = char::from_u32(c) {
            assert_eq!(is_whitespace(ch), ch.is_whitespace(), "U+{:04X}", c);
        }
        c += 1;
    }
}

#[test]
fn whitespace_named_characters() {
    let spaces = [
        '\t', '\n', '\u{b}', '\u{c}', '\r', ' ', '\u{85}', '\u{a0}', '\u{1680}', '\u{2000}',
        '\u{200a}', '\u{2028}', '\u{2029}', '\u{202f}', '\u{205f}', '\u{3000}',
    ];
    for ch in spaces {
        assert!(is_whitespace(ch));
    }
    let others = [
        'a', '/', '\u{8}', '\u{e}', '\u{1f}', '!', '\u{84}', '\u{86}', '\u{200b}', '\u{2027}',
        '\u{feff}',
    ];
    for ch in others {
        assert!(!is_whitespace(ch));
    }
}

#[test]
fn blank_texts() {
    assert!(all_whitespace(&chars("")));
    assert!(all_whitespace(&chars("  \t\r\n\u{3000}")));
    assert!(!all_whitespace(&chars("  x ")));
    assert!(!all_whitespace(&chars("\n//\n")));
}

#[test]
fn trimming_takes_whitespace_off_both_ends() {
    assert_eq!(trimmed("  foo bar \t"), "foo bar");
    assert_eq!(trimmed("foo"), "foo");
    assert_eq!(trimmed(""), "");
    assert_eq!(trimmed(" \t\r "), "");
    assert_eq!(trimmed("\u{a0}x\u{2003}y\u{3000}"), "x\u{2003}y");
    assert_eq!(trimmed("x "), "x");
    assert_eq!(trimmed(" x"), "x");
    assert_eq!(trimmed("foo\r"), "foo");
}

#[test]
fn trimming_agrees_with_the_standard_library() {
    let alphabet = [' ', '\t', 'a', '\u{a0}', '!'];
    let mut samples: Vec<String> = vec![String::new()];
    let mut start = 0;
    for _ in 0..5 {
        let end = samples.len();
        for i in start..end {
            for c in alphabet {
                let mut s = samples[i].clone();
                s.push(c);
                samples.push(s);
            }
        }
        start = end;
    }
    assert_eq!(samples.len(), 3906);
    for s in &samples {
        assert_eq!(trimmed(s), s.trim(), "{:?}", s);
        let text = chars(s);
        let (a, b) = trim_bounds(&text);
        assert!(a <= b && b <= text.len());
    }
}

#[test]
fn cutting_at_line_feeds() {
    assert_eq!(cut("a\nb", Delimiter::LineFeed), ["a", "b"]);
    assert_eq!(cut("", Delimiter::LineFeed), [""]);
    assert_eq!(cut("\n", Delimiter::LineFeed), ["", ""]);
    assert_eq!(cut("a\n\nb\n", Delimiter::LineFeed), ["a", "", "b", ""]);
    assert_eq!(cut("a\r\nb", Delimiter::LineFeed), ["a\r", "b"]);
    assert_eq!(cut("a/b", Delimiter::LineFeed), ["a/b"]);
}

#[test]
fn cutting_at_slashes() {
    assert_eq!(cut("a/b\\c", Delimiter::Slash), ["a", "b\\c"]);
    assert_eq!(cut("a/b\\c", Delimiter::AnySlash), ["a", "b", "c"]);
    assert_eq!(cut("/a//b/", Delimiter::Slash), ["", "a", "", "b", ""]);
    assert_eq!(cut("\\", Delimiter::AnySlash), ["", ""]);
    assert_eq!(cut("\\", Delimiter::Slash), ["\\"]);
}

#[test]
fn cutting_agrees_with_the_standard_library() {
    let alphabet = ['\n', 'a', '/', ' '];
    let mut samples: Vec<String> = vec![String::new()];
    let mut start = 0;
    for _ in 0..6 {
        let end = samples.len();
        for i in start..end {
            for c in alphabet {
                let mut s = samples[i].clone();
                s.push(c);
                samples.push(s);
            }
        }
        start = end;
    }
    for s in &samples {
        let lines: Vec<&str> = s.split('\n').collect();
        assert_eq!(cut(s, Delimiter::LineFeed), lines, "{:?}", s);
        let parts: Vec<&str> = s.split('/').collect();
        assert_eq!(cut(s, Delimiter::Slash), parts, "{:?}", s);
    }
}

#[test]
fn delimiters() {
    assert!(Delimiter::LineFeed.is_at('\n'));
    assert!(!Delimiter::LineFeed.is_at('\r'));
    assert!(Delimiter::Slash.is_at('/'));
    assert!(!Delimiter::Slash.is_at('\\'));
    assert!(Delimiter::AnySlash.is_at('/'));
    assert!(Delimiter::AnySlash.is_at('\\'));
    assert!(!Delimiter::AnySlash.is_at(':'));
}

#[test]
fn strings_and_characters_convert_both_ways() {
    let s = "a\u{e9}\u{4e2d}\u{1f600} z";
    let text = chars_of(s);
    assert_eq!(text, chars(s));
    assert_eq!(string_of(&text), s);
    assert_eq!(chars_of(""), Vec::<char>::new());
    assert_eq!(string_of(&[]), "");
    let mut out = String::from("x");
    push_chars(&mut out, &['y', 'z']);
    assert_eq!(out, "xyz");
}
