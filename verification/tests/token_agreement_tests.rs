use parsing::transform::{
    extract_escape_sequences, extract_html_tags, extract_nesting_references, extract_variables,
    has_escape_sequences, has_html_tags, has_nesting_references, has_variables, VariableType,
};
use regex_lite::Regex;

fn samples() -> Vec<String> {
    let pieces = [
        "", "a", "{", "}", "{{", "}}", "{{x}}", "{x}", "{{{x}}}", "{{ a b }}", "{}", "{{}}", "%",
        "%s", "%d", "%1$s", "%12$", "%$s", "%%", "%5d", "<", ">", "<b>", "</b>", "<br/>",
        "<br />", "<a href='x'>", "<1>", "</>", "< b>", "<b\n>", "<b\tc", "$t(", "$t(a)", "$t()",
        "$t(a, {\"b\": 1})", ")", "\\", "\\n", "\\t", "\\\\", "\\\"", "\\'", "\\x", " ", "\n",
        "한", "é", "x{y", "{a}{b}", "{{a}}{b}", "%s%d", "<<b>>", "$$t(a)",
    ];
    let mut out: Vec<String> = Vec::new();
    for a in pieces.iter() {
        out.push(a.to_string());
        for b in pieces.iter() {
            out.push(format!("{}{}", a, b));
        }
    }
    for a in ["{{x}}", "{x}", "%s", "<b>", "$t(a)", "\\n"] {
        for b in ["{", "}", "<", "%1$", "\\", "$t("] {
            for c in ["{{y}}", "{y}", "%d", "</b>", ")", "}}"] {
                out.push(format!("{}{}{}", a, b, c));
                out.push(format!("{} {} {}", b, a, c));
            }
        }
    }
    out
}

fn generated(count: usize) -> Vec<String> {
    let alphabet: Vec<char> = "{}{}%$t()<>/ab1 \n\t\\\"'sdn$%<>{}é".chars().collect();
    let mut state: u64 = 0x2545_f491_4f6c_dd1d;
    let mut out: Vec<String> = Vec::new();
    for _ in 0..count {
        state = state.wrapping_mul(6364136223846793005).wrapping_add(1442695040888963407);
        let length = ((state >> 33) % 14) as usize;
        let mut text = String::new();
        for _ in 0..length {
            state = state.wrapping_mul(6364136223846793005).wrapping_add(1442695040888963407);
            text.push(alphabet[((state >> 33) % alphabet.len() as u64) as usize]);
        }
        out.push(text);
    }
    out
}

fn all_matches(pattern: &str, input: &str) -> Vec<String> {
    Regex::new(pattern).unwrap().find_iter(input).map(|m| m.as_str().to_string()).collect()
}

#[test]
fn escape_sequences_agree_with_the_pattern() {
    let pattern = r#"\\[ntr\\'""]"#;
    for s in samples() {
        assert_eq!(extract_escape_sequences(&s), all_matches(pattern, &s), "{:?}", s);
        assert_eq!(has_escape_sequences(&s), Regex::new(pattern).unwrap().is_match(&s), "{:?}", s);
    }
}

#[test]
fn html_tags_agree_with_the_pattern() {
    let pattern = r"</?[a-zA-Z0-9]+(?:\s+[^>]*)?>";
    for s in samples() {
        assert_eq!(extract_html_tags(&s), all_matches(pattern, &s), "{:?}", s);
        assert_eq!(has_html_tags(&s), Regex::new(pattern).unwrap().is_match(&s), "{:?}", s);
    }
}

#[test]
fn nesting_references_agree_with_the_pattern() {
    let pattern = r"\$t\([^)]+\)";
    for s in samples() {
        assert_eq!(extract_nesting_references(&s), all_matches(pattern, &s), "{:?}", s);
        assert_eq!(has_nesting_references(&s), Regex::new(pattern).unwrap().is_match(&s), "{:?}", s);
    }
}

#[test]
fn variables_agree_with_the_patterns() {
    let double = Regex::new(r"\{\{([^}]+)\}\}").unwrap();
    let single = Regex::new(r"\{([^}]+)\}").unwrap();
    let printf = Regex::new(r"%(\d+\$)?[sdifFeEgGxXoubcpn%]").unwrap();
    for s in samples() {
        let mut expected: Vec<(VariableType, String, Option<String>)> = Vec::new();
        for cap in double.captures_iter(&s) {
            expected.push((VariableType::DoubleBrace, cap[0].to_string(), Some(cap[1].to_string())));
        }
        for cap in single.captures_iter(&s) {
            let full = &cap[0];
            if !s.contains(&format!("{{{}", full)) && !s.contains(&format!("{}}}", full)) {
                expected.push((
                    VariableType::SingleBrace,
                    full.to_string(),
                    Some(cap[1].to_string()),
                ));
            }
        }
        for m in printf.find_iter(&s) {
            expected.push((VariableType::Printf, m.as_str().to_string(), None));
        }
        let found: Vec<(VariableType, String, Option<String>)> = extract_variables(&s)
            .into_iter()
            .map(|v| (v.var_type, v.full_match, v.name))
            .collect();
        assert_eq!(found, expected, "{:?}", s);
        let any = double.is_match(&s) || single.is_match(&s) || printf.is_match(&s);
        assert_eq!(has_variables(&s), any, "{:?}", s);
    }
}

#[test]
fn generated_texts_agree_with_the_patterns() {
    let escape = Regex::new(r#"\\[ntr\\'""]"#).unwrap();
    let html = Regex::new(r"</?[a-zA-Z0-9]+(?:\s+[^>]*)?>").unwrap();
    let nesting = Regex::new(r"\$t\([^)]+\)").unwrap();
    let double = Regex::new(r"\{\{([^}]+)\}\}").unwrap();
    let single = Regex::new(r"\{([^}]+)\}").unwrap();
    let printf = Regex::new(r"%(\d+\$)?[sdifFeEgGxXoubcpn%]").unwrap();
    for s in generated(20000) {
        let found = |re: &Regex| -> Vec<String> {
            re.find_iter(&s).map(|m| m.as_str().to_string()).collect()
        };
        assert_eq!(extract_escape_sequences(&s), found(&escape), "{:?}", s);
        assert_eq!(extract_html_tags(&s), found(&html), "{:?}", s);
        assert_eq!(extract_nesting_references(&s), found(&nesting), "{:?}", s);
        let mut expected: Vec<(VariableType, String)> = Vec::new();
        for m in found(&double) {
            expected.push((VariableType::DoubleBrace, m));
        }
        for full in found(&single) {
            if !s.contains(&format!("{{{}", full)) && !s.contains(&format!("{}}}", full)) {
                expected.push((VariableType::SingleBrace, full));
            }
        }
        for m in found(&printf) {
            expected.push((VariableType::Printf, m));
        }
        let got: Vec<(VariableType, String)> =
            extract_variables(&s).into_iter().map(|v| (v.var_type, v.full_match)).collect();
        assert_eq!(got, expected, "{:?}", s);
        let any = double.is_match(&s) || single.is_match(&s) || printf.is_match(&s);
        assert_eq!(has_variables(&s), any, "{:?}", s);
    }
}
