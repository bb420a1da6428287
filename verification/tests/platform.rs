use stignore::platform::Platform;
use stignore::text::Delimiter;

#[test]
fn lines_end_as_the_platform_has_it() {
    let mut out = vec!['a'];
    Platform::Unix.end_line(&mut out);
    assert_eq!(out, ['a', '\n']);
    Platform::Windows.end_line(&mut out);
    assert_eq!(out, ['a', '\n', '\r', '\n']);
}

#[test]
fn names_are_set_apart_as_the_platform_has_it() {
    assert!(matches!(Platform::Unix.path_delimiter(), Delimiter::Slash));
    assert!(matches!(Platform::Windows.path_delimiter(), Delimiter::AnySlash));
    for platform in [Platform::Unix, Platform::Windows] {
        assert!(platform.path_delimiter().is_at(platform.path_separator()));
        assert!(platform.path_delimiter().is_at('/'));
    }
    assert!(!Platform::Unix.path_delimiter().is_at('\\'));
}
