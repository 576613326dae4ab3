use metw_mailer::text::{chars_of, collapse, file_stem, split_lines, string_of, trim_range};
use std::path::Path;

fn lines(s: &str) -> Vec<String> {
    let cs = chars_of(s);
    split_lines(&cs).iter().map(|l| l.iter().collect()).collect()
}

#[test]
fn split_lines_matches_std_lines() {
    for s in ["", "\n", "a", "a\n", "a\r\nb", "a\rb\n", "a\n\nb\r\n", "x\r", "\r\n\r\n", "é\nü"] {
        let ours = lines(s);
        let std: Vec<String> = s.lines().map(String::from).collect();
        assert_eq!(ours, std, "text {:?}", s);
    }
}

#[test]
fn trim_range_matches_std_trim() {
    for s in ["", "  ", " a ", "\u{3000}b\u{a0}", "\t\n x y \r", "no"] {
        let cs = chars_of(s);
        let (a, b) = trim_range(&cs, 0, cs.len());
        assert_eq!(string_of(&cs, a, b), s.trim(), "text {:?}", s);
    }
}

#[test]
fn collapse_matches_std_replace() {
    for s in ["", "{", "{{", "{{{", "{{{{", "a{{b}}c", "}}{{"] {
        let cs = chars_of(s);
        let once = collapse(&cs, 0, cs.len(), '{');
        let twice = collapse(&once, 0, once.len(), '}');
        let ours: String = twice.iter().collect();
        assert_eq!(ours, s.replace("{{", "{").replace("}}", "}"), "text {:?}", s);
    }
}

#[test]
fn file_stem_matches_std() {
    for name in ["welcome.txt", "welcome", ".hidden", "a.b.c", "a.", "é.mail"] {
        let std = Path::new(name).file_stem().unwrap().to_str().unwrap();
        assert_eq!(file_stem(name), std, "name {:?}", name);
    }
}
