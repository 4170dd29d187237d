//! Holds the readers against matchers that try every way to split a text.

use judge_compile::fpc::{fpc_code, read_fpc_line};
use judge_compile::gcc::{gcc_code, strip_ansi};
use judge_compile::java::get_class_name;
use judge_compile::javac::{parse_javac_diagnostics, read_caret};
use judge_compile::mcs::read_mcs_line;
use regex::Regex;

/// All texts of up to `length` of the given pieces.
fn texts(pieces: &[&str], length: usize) -> Vec<String> {
    let mut all = vec![String::new()];
    let mut last = all.clone();
    for _ in 0..length {
        last = last
            .iter()
            .flat_map(|s| pieces.iter().map(move |p| format!("{}{}", s, p)))
            .collect();
        all.extend(last.clone());
    }
    all
}

/// All texts that come from the pieces of `base` by putting one other piece in
/// the place of one, or by taking one out, or by putting one in, twice over.
fn variants(base: &[&str], pieces: &[&str]) -> Vec<String> {
    let mut all: Vec<Vec<String>> = vec![base.iter().map(|s| s.to_string()).collect()];
    let mut step: u64 = 1;
    for _ in 0..1200 {
        let mut v = all[0].clone();
        for _ in 0..2 {
            step = step.wrapping_mul(6364136223846793005).wrapping_add(1442695040888963407);
            let at = (step >> 33) as usize % v.len();
            let piece = pieces[(step >> 17) as usize % pieces.len()].to_string();
            match (step >> 50) % 3 {
                0 => v[at] = piece,
                1 => v.insert(at, piece),
                _ => {
                    v.remove(at);
                }
            }
        }
        all.push(v);
    }
    all.iter().map(|v| v.concat()).collect()
}

fn blank(s: &str) -> bool {
    s.chars().all(|c| c.is_whitespace())
}

fn digits(s: &str) -> bool {
    !s.is_empty() && s.chars().all(|c| c.is_ascii_digit())
}

/// The message after a colon: the space before it is as long as it can be.
fn message_after(s: &str) -> Option<&str> {
    (1..s.len()).rev().filter(|n| s.is_char_boundary(*n)).find(|n| blank(&s[..*n])).map(|n| &s[n..])
        .filter(|m| !m.contains('\n'))
}

#[test]
fn codes_of_gcc() {
    for s in texts(&["a", "[", "]", " "], 5) {
        let expected = (0..=s.len()).find_map(|start| {
            let rest = s[start..].trim_start();
            let inner = rest.strip_prefix('[')?.strip_suffix(']')?;
            if inner.is_empty() || inner.contains(']') {
                return None;
            }
            Some((s[..start].to_string(), Some(inner.to_string())))
        });
        assert_eq!(gcc_code(&s), expected.unwrap_or((s.clone(), None)), "{:?}", s);
    }
}

#[test]
fn codes_of_fpc() {
    for s in texts(&["(", "1", ")", " ", "a"], 5) {
        let expected = (|| {
            let rest = s.strip_prefix('(')?;
            let close = rest.find(')')?;
            if !digits(&rest[..close]) {
                return None;
            }
            let message = message_after(&rest[close + 1..])?;
            Some((Some(rest[..close].to_string()), message.to_string()))
        })();
        assert_eq!(fpc_code(s.clone()), expected.unwrap_or((None, s.clone())), "{:?}", s);
    }
}

#[test]
fn control_sequences() {
    for s in texts(&["\x1b", "[", "1", "m"], 6) {
        let mut expected = String::new();
        let mut rest = s.as_str();
        while let Some(c) = rest.chars().next() {
            let sequence = rest.strip_prefix("\x1b[").and_then(|r| {
                r.trim_start_matches('1').strip_prefix('m')
            });
            match sequence {
                Some(r) => rest = r,
                None => {
                    expected.push(c);
                    rest = &rest[c.len_utf8()..];
                }
            }
        }
        assert_eq!(strip_ansi(&s), expected, "{:?}", s);
    }
}

#[test]
fn carets_of_javac() {
    for s in texts(&[" ", "^", "a", "\u{2003}"], 5) {
        let expected = s.strip_suffix('^').filter(|t| blank(t)).map(|t| t.chars().count());
        assert_eq!(read_caret(&s), expected, "{:?}", s);
    }
}

#[test]
fn lines_of_fpc() {
    let mut found = 0;
    for s in variants(
        &["a", "(", "1", ",", "2", ")", " ", "Note", ":", " ", "b"],
        &["a", "(", "1", ",", ")", " ", "Note", "Hint", ":", "(1,2) Error: ", "\t"],
    ) {
        let expected = (1..s.len()).find_map(|n| {
            let rest = s[n..].strip_prefix('(')?;
            let (line, rest) = rest.split_once(',')?;
            let (column, rest) = rest.split_once(')')?;
            let trimmed = rest.trim_start();
            let (level, text) = trimmed.split_once(':')?;
            if !digits(line) || !digits(column) || trimmed.len() == rest.len() {
                return None;
            }
            let level = match level {
                "Note" => "note",
                "Hint" => "help",
                "Error" => "error",
                _ => return None,
            };
            let message = message_after(text)?;
            Some((line.to_string(), column.to_string(), level, message.to_string()))
        });
        found += expected.is_some() as usize;
        let expected = expected.map(|(line, column, level, message)| {
            let (code, message) = fpc_code(message);
            let zero = |s: String| s.parse::<usize>().unwrap_or(1).saturating_sub(1);
            (zero(line), zero(column), level.to_string(), code, message)
        });
        let read = read_fpc_line(&s).map(|d| {
            let start = d.span.unwrap().start;
            (start.line, start.column, d.level, d.code, d.message)
        });
        assert_eq!(read, expected, "{:?}", s);
    }
    assert!(found > 100);
}

#[test]
fn lines_of_mcs() {
    let mut found = 0;
    for s in variants(
        &["a", "(", "1", ",", "2", ")", ":", " ", "error", " ", "CS", "3", ":", " ", "b"],
        &["a", "(", "1", ",", ")", " ", "warning", "CS", ":", "(1): error CS2: ", "\t"],
    ) {
        let expected = (1..s.len()).find_map(|n| {
            let rest = s[n..].strip_prefix('(')?;
            let (place, rest) = rest.split_once("):")?;
            let (line, column) = match place.split_once(',') {
                Some((line, "")) => (line, None),
                Some((line, column)) => (line, Some(column)),
                None => (place, None),
            };
            let trimmed = rest.trim_start();
            let (level, after) = trimmed.split_once(char::is_whitespace)?;
            let (code, text) = after.trim_start().split_once(':')?;
            if !digits(line)
                || !column.map_or(true, digits)
                || trimmed.len() == rest.len()
                || !(level == "error" || level == "warning")
                || !digits(code.strip_prefix("CS")?)
            {
                return None;
            }
            let message = message_after(text)?;
            let zero = |s: &str| s.parse::<usize>().unwrap_or(1).saturating_sub(1);
            Some((
                zero(line),
                column.map_or(0, zero),
                level.to_string(),
                Some(code.to_string()),
                message.to_string(),
            ))
        });
        found += expected.is_some() as usize;
        let read = read_mcs_line(&s).map(|d| {
            let start = d.span.unwrap().start;
            (start.line, start.column, d.level, d.code, d.message)
        });
        assert_eq!(read, expected, "{:?}", s);
    }
    assert!(found > 100);
}

#[test]
fn lines_of_javac() {
    let mut found = 0;
    for s in variants(
        &["x", "A", ":", "1", ":", " ", "error", ":", " ", "b"],
        &["A", ":", "1", " ", "warning", "A:7: error: ", "x"],
    ) {
        let expected = (0..s.len()).find_map(|n| {
            let rest = s[n..].strip_prefix("A:")?;
            let (line, rest) = rest.split_once(": ")?;
            let (level, message) = rest.split_once(": ")?;
            if !digits(line) || !(level == "error" || level == "warning") || message.is_empty() {
                return None;
            }
            let line = line.parse::<usize>().unwrap_or(1).saturating_sub(1);
            Some((line, level.to_string(), message.to_string()))
        });
        found += expected.is_some() as usize;
        let read = parse_javac_diagnostics(&s, "A")
            .unwrap()
            .into_iter()
            .next()
            .map(|d| (d.span.unwrap().start.line, d.level, d.message));
        assert_eq!(read, expected, "{:?}", s);
    }
    assert!(found > 100);
}

/// Whether the class that is declared at the start of a text has modifiers, and
/// its name.
fn declared(text: &str) -> Option<(bool, String)> {
    let rest = text.strip_prefix("public")?;
    let mut words = rest.trim_start();
    if words.len() == rest.len() {
        return None;
    }
    let modifiers = ["abstract", "final", "sealed", "non-sealed", "strictfp"];
    let mut modified = false;
    while let Some(r) = modifiers.iter().find_map(|m| {
        words.strip_prefix(m).filter(|r| r.starts_with(char::is_whitespace))
    }) {
        words = r.trim_start();
        modified = true;
    }
    let after = words.strip_prefix("class")?;
    let name: String = after
        .trim_start()
        .chars()
        .take_while(|c| c.is_ascii_alphanumeric() || *c == '_' || *c == '$')
        .collect();
    if after.trim_start().len() == after.len() || name.is_empty() {
        return None;
    }
    Some((modified, name))
}

/// Whether a word at the end of a text stands outside of braces; for texts
/// without comments and literals.
fn outside(text: &str) -> bool {
    let mut open = 0;
    for c in text.chars() {
        match c {
            '{' => open += 1,
            '}' if open > 0 => open -= 1,
            _ => {}
        }
    }
    open == 0 && !text.ends_with(|c: char| c.is_ascii_alphanumeric() || !c.is_ascii())
}

#[test]
fn classes_of_java() {
    let mut found = 0;
    let pieces = [
        "x", " ", "public", "class", "{", "public class ", "\t", "B", "final ", "sealed", "\u{e9}", "}",
    ];
    let mut all = variants(&["x", " ", "public", " ", "class", "\n", "Ab_1", "{"], &pieces);
    all.extend(variants(
        &["public", " ", "abstract", " ", "final", "\n", "class", " ", "A$", "{"],
        &pieces,
    ));
    all.extend(variants(
        &["{", " ", "public", " ", "final", " ", "class", " ", "A", "}", "public", " sealed class ", "B"],
        &pieces,
    ));
    all.extend(variants(
        &["x", " ", "public", " ", "non-", "sealed", " ", "strictfp", " ", "class", " ", "A", "{"],
        &pieces,
    ));
    for s in all {
        let expected = (0..s.len()).filter(|n| s.is_char_boundary(*n)).find_map(|n| {
            let (modified, name) = declared(&s[n..])?;
            if modified && !outside(&s[..n]) {
                return None;
            }
            Some(name)
        });
        found += expected.is_some() as usize;
        assert_eq!(get_class_name(&s), expected.unwrap_or("Main".to_string()), "{:?}", s);
    }
    assert!(found > 100);
}

#[test]
fn classes_without_modifiers() {
    let plain = Regex::new(r"\s*public\s+class\s+([a-zA-Z0-9_]+)").unwrap();
    for s in variants(
        &["x", " ", "public", " ", "class", "\n", "Ab_1", "{"],
        &["x", " ", "public", "class", "{", "public class ", "// ", "\"", "\u{ff5b}", "}", "\u{3000}"],
    ) {
        let expected = plain.captures(&s).map_or("Main", |c| c.get(1).unwrap().as_str());
        assert_eq!(get_class_name(&s), expected, "{:?}", s);
    }
}
