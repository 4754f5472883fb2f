use doky::folder::is_valid_name;
use doky::path::split_segments;
use doky::words::split_words;

/// A small deterministic generator of texts over a given alphabet.
struct Texts {
    state: u64,
}

impl Texts {
    fn next(&mut self) -> u64 {
        self.state = self
            .state
            .wrapping_mul(6364136223846793005)
            .wrapping_add(1442695040888963407);
        self.state >> 33
    }

    fn text(&mut self, alphabet: &[char]) -> String {
        let len = (self.next() % 12) as usize;
        let mut out = String::new();
        for _ in 0..len {
            out.push(alphabet[(self.next() % alphabet.len() as u64) as usize]);
        }
        out
    }
}

#[test]
fn segments_of_given_paths() {
    let cases: [(&str, &[&str]); 9] = [
        ("", &[""]),
        ("a", &["a"]),
        ("a/b", &["a", "b"]),
        ("/", &["", ""]),
        ("/a", &["", "a"]),
        ("a/", &["a", ""]),
        ("a//b", &["a", "", "b"]),
        ("../..", &["..", ".."]),
        ("a\\b/c d", &["a\\b", "c d"]),
    ];
    for (path, expected) in cases {
        let expected: Vec<String> = expected.iter().map(|s| s.to_string()).collect();
        assert_eq!(expected, split_segments(path), "path {:?}", path);
    }
}

#[test]
fn segments_agree_with_split() {
    let alphabet = ['a', 'b', '/', '/', '.', '\\', ' ', '\u{e9}', '\u{4e3b}', '\u{1f600}'];
    let mut texts = Texts { state: 7 };
    for _ in 0..2000 {
        let path = texts.text(&alphabet);
        let expected: Vec<String> = path.split('/').map(|s| s.to_string()).collect();
        assert_eq!(expected, split_segments(&path), "path {:?}", path);
        // one segment more than separators, and joining gives the path back
        assert_eq!(path.matches('/').count() + 1, split_segments(&path).len());
        assert_eq!(path, split_segments(&path).join("/"));
    }
}

#[test]
fn words_of_given_lines() {
    let cases: [(&str, &[&str]); 8] = [
        ("", &[]),
        ("   ", &[]),
        ("help", &["help"]),
        (" help ", &["help"]),
        ("cd  a/b", &["cd", "a/b"]),
        ("rm\tx\n-f\r\n", &["rm", "x", "-f"]),
        ("a\u{a0}b\u{2003}c\u{3000}d", &["a", "b", "c", "d"]),
        ("a\u{200b}b", &["a\u{200b}b"]),
    ];
    for (line, expected) in cases {
        let expected: Vec<String> = expected.iter().map(|s| s.to_string()).collect();
        assert_eq!(expected, split_words(line), "line {:?}", line);
    }
}

#[test]
fn words_agree_with_split_whitespace() {
    let alphabet = [
        'a', 'b', '-', ' ', ' ', '\t', '\n', '\u{a0}', '\u{1680}', '\u{2028}', '\u{3000}',
        '\u{e9}', '\u{200b}', '\u{1f600}',
    ];
    let mut texts = Texts { state: 11 };
    for _ in 0..2000 {
        let line = texts.text(&alphabet);
        let expected: Vec<String> = line.split_whitespace().map(|s| s.to_string()).collect();
        let words = split_words(&line);
        assert_eq!(expected, words, "line {:?}", line);
        for word in &words {
            assert!(!word.is_empty());
            assert!(!word.chars().any(|c| c.is_whitespace()));
        }
    }
}

#[test]
fn valid_names_are_non_empty_and_hold_no_separator() {
    let alphabet = ['a', 'b', '/', '\\', '.', ' ', '\u{e9}'];
    let mut texts = Texts { state: 13 };
    for _ in 0..2000 {
        let name = texts.text(&alphabet);
        let expected = !name.is_empty() && !name.contains('/') && !name.contains('\\');
        assert_eq!(expected, is_valid_name(&name), "name {:?}", name);
    }
    assert!(is_valid_name(".."));
    assert!(is_valid_name(" "));
    assert!(!is_valid_name(""));
}
