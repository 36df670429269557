use mdbook_mermaid_ssr::annotation::{neutralize_fences, quote_lines};
use mdbook_mermaid_ssr::compositor::{compose, is_replaceable, Replacement, Span};
use mdbook_mermaid_ssr::config::kebab_to_camel;
use mdbook_mermaid_ssr::renderer::RenderRequest;

/// A small generator of texts over a given alphabet, the same on every run.
struct Texts {
    state: u64,
}

impl Texts {
    fn next(&mut self) -> u64 {
        self.state = self
            .state
            .wrapping_mul(6364136223846793005)
            .wrapping_add(1442695040888963407);
        self.state >> 33
    }

    fn text(&mut self, alphabet: &[char], longest: u64) -> String {
        let length = self.next() % (longest + 1);
        (0..length)
            .map(|_| alphabet[(self.next() % alphabet.len() as u64) as usize])
            .collect()
    }
}

fn camel_by_parts(s: &str) -> String {
    let mut parts = s.split('-');
    let mut result = parts.next().unwrap_or("").to_string();
    for part in parts {
        let mut chars = part.chars();
        if let Some(first) = chars.next() {
            result.push(first.to_ascii_uppercase());
            result.extend(chars);
        }
    }
    result
}

#[test]
fn camel_case_agrees_with_casing_part_by_part() {
    let mut texts = Texts { state: 1 };
    let alphabet = ['a', 'b', 'z', 'A', 'Z', '-', '-', '_', '1', '\u{e9}', '\u{df}'];
    for _ in 0..2000 {
        let name = texts.text(&alphabet, 12);
        assert_eq!(kebab_to_camel(&name), camel_by_parts(&name));
        let once = kebab_to_camel(&name);
        assert_eq!(kebab_to_camel(&once), once);
        assert!(!once.contains('-'));
    }
}

#[test]
fn quoting_agrees_with_joining_the_lines() {
    let mut texts = Texts { state: 2 };
    let alphabet = ['a', '\n', '\r', '\n', '\r', ' ', '>', '\u{4e2d}'];
    for _ in 0..2000 {
        let text = texts.text(&alphabet, 10);
        assert_eq!(quote_lines(&text), text.lines().collect::<Vec<_>>().join("\n> "));
    }
}

#[test]
fn neutralizing_agrees_with_replacing() {
    let mut texts = Texts { state: 3 };
    let alphabet = ['`', '`', '`', 'a', '\\', '\n', '\u{e9}'];
    for _ in 0..2000 {
        let text = texts.text(&alphabet, 12);
        assert_eq!(neutralize_fences(&text), text.replace("```", "``\\`"));
    }
}

#[test]
fn escaping_agrees_with_the_reader() {
    let mut texts = Texts { state: 4 };
    let alphabet = [
        'a', ' ', '\\', '"', '\'', '\n', '\r', '\t', '\u{7}', '\u{8}', '\u{b}', '\u{c}', 'n',
        '\u{e9}', '\u{1f600}',
    ];
    let prefix = "(async () => { return await window.render('mermaid-diagram-1', '";
    let suffix = "'); })()";
    for _ in 0..2000 {
        let source = texts.text(&alphabet, 12);
        let script = RenderRequest { diagram_source: source.clone(), identifier: 1 }.script();
        let escaped = &script[prefix.len()..script.len() - suffix.len()];
        assert_eq!(escaped, escape_string::escape(&source).replace('\'', "\\'"));
        if !source.is_empty() {
            let (read, rest) = escape_string::split_one(escaped).unwrap();
            assert_eq!(read, source);
            assert_eq!(rest, "");
        }
    }
}

fn composed_by_hand(text: &str, reps: &[Replacement]) -> String {
    let mut out = text.to_string();
    for rep in reps.iter().rev() {
        out = format!("{}\n{}{}", &out[..rep.span.start], rep.text, &out[rep.span.end..]);
    }
    out
}

#[test]
fn composing_agrees_with_replacing_from_the_end() {
    let mut texts = Texts { state: 5 };
    let alphabet = ['a', 'b', '\n', '\r', '|', '\u{e9}', '\u{4e2d}', '\u{1f600}'];
    for _ in 0..2000 {
        let text = texts.text(&alphabet, 16);
        let boundaries: Vec<usize> =
            (0..=text.len()).filter(|&at| text.is_char_boundary(at)).collect();
        let mut reps = Vec::new();
        let mut from = 0;
        while from < boundaries.len() && texts.next() % 3 != 0 {
            let start = from + (texts.next() % (boundaries.len() - from) as u64) as usize;
            let end = start + (texts.next() % (boundaries.len() - start) as u64) as usize;
            reps.push(Replacement {
                span: Span { start: boundaries[start], end: boundaries[end] },
                text: texts.text(&alphabet, 4),
            });
            from = end;
        }
        assert!(is_replaceable(&text, &reps));
        assert_eq!(compose(&text, &reps), composed_by_hand(&text, &reps));
    }
}
