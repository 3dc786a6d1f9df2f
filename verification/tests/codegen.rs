use rgx::codegen::{generate_code, Language};
use rgx::engine::{EngineLevel, RegexFlags};

fn flags(i: bool, m: bool, s: bool, u: bool, x: bool) -> RegexFlags {
    RegexFlags { case_insensitive: i, multiline: m, dot_matches_newline: s, unicode: u, extended: x }
}

#[test]
fn language_names_and_order() {
    let names: Vec<&str> = Language::ALL.iter().map(|l| l.name()).collect();
    assert_eq!(names, vec!["Rust", "Python", "JavaScript", "Go", "Java", "PHP"]);
}

#[test]
fn python_snippet_escapes_and_joins_flags() {
    let code = generate_code(Language::Python, r"a'b\d", &flags(true, false, false, true, false), EngineLevel::Basic);
    let expected = [
        "import re\n\n",
        r"pattern = re.compile(r'a\'b\\d', re.IGNORECASE | re.UNICODE)",
        "\n\n",
        "for match in pattern.finditer(text):\n",
        "    print(f'Match: {match.group()} [{match.start()}-{match.end()}]')\n",
    ]
    .concat();
    assert_eq!(code, expected);
    let plain = generate_code(Language::Python, "x", &flags(false, false, false, false, false), EngineLevel::Basic);
    assert!(plain.contains("pattern = re.compile(r'x')\n\n"));
}

#[test]
fn rust_basic_snippet() {
    let code = generate_code(Language::Rust, "a\"b\n", &flags(true, false, true, false, false), EngineLevel::Basic);
    let expected = [
        "use regex::RegexBuilder;\n\n",
        "let re = RegexBuilder::new(\"a\\\"b\\n\")\n",
        "    .case_insensitive(true)\n",
        "    .dot_matches_new_line(true)\n",
        "    .unicode(false)\n",
        "    .build()\n    .unwrap();\n\n",
        "for m in re.find_iter(text) {\n",
        "    println!(\"Match: {} [{}-{}]\", m.as_str(), m.start(), m.end());\n",
        "}\n",
    ]
    .concat();
    assert_eq!(code, expected);
}

#[test]
fn rust_fancy_snippet_puts_flags_inline() {
    let code = generate_code(Language::Rust, r"\d", &flags(false, true, false, true, false), EngineLevel::Fancy);
    assert!(code.starts_with("use fancy_regex::Regex;\n\nlet re = Regex::new(\"(?mu)\\\\d\").unwrap();\n\n"));
    let none = generate_code(Language::Rust, "a", &flags(false, false, false, false, false), EngineLevel::Fancy);
    assert!(none.contains("Regex::new(\"a\").unwrap()"));
}

#[test]
fn rust_pcre2_snippet() {
    let code = generate_code(Language::Rust, "a", &flags(false, false, false, true, true), EngineLevel::Pcre2);
    let expected = [
        "use pcre2::bytes::RegexBuilder;\n\n",
        "let re = RegexBuilder::new()\n",
        "    .extended(true)\n",
        "    .utf(true)\n    .ucp(true)\n",
        "    .build(\"a\")\n    .unwrap();\n\n",
        "for m in re.find_iter(text.as_bytes()) {\n",
        "    let m = m.unwrap();\n",
        "    let matched = std::str::from_utf8(m.as_bytes()).unwrap();\n",
        "    println!(\"Match: {} [{}-{}]\", matched, m.start(), m.end());\n",
        "}\n",
    ]
    .concat();
    assert_eq!(code, expected);
}

#[test]
fn javascript_snippet_escapes_slash() {
    let code = generate_code(Language::JavaScript, "a/b'", &flags(true, true, true, true, true), EngineLevel::Basic);
    assert!(code.starts_with(r"const re = new RegExp('a\/b\'', 'gimsu');"));
    assert!(code.ends_with("}\n"));
}

#[test]
fn go_snippet_prefix() {
    let code = generate_code(Language::Go, "x", &flags(true, false, true, true, false), EngineLevel::Basic);
    assert!(code.contains("re := regexp.MustCompile(\"(?is)x\")\n\n"));
    let plain = generate_code(Language::Go, "x", &flags(false, false, false, true, true), EngineLevel::Basic);
    assert!(plain.contains("re := regexp.MustCompile(\"x\")\n\n"));
}

#[test]
fn java_snippet_flags() {
    let code = generate_code(Language::Java, "a\tb", &flags(false, true, false, false, true), EngineLevel::Basic);
    assert!(code.contains(
        "Pattern pattern = Pattern.compile(\"a\\tb\", Pattern.MULTILINE | Pattern.COMMENTS);\n"
    ));
    let plain = generate_code(Language::Java, "a", &flags(false, false, false, false, false), EngineLevel::Basic);
    assert!(plain.contains("Pattern pattern = Pattern.compile(\"a\");\n"));
}

#[test]
fn php_snippet_modifiers() {
    let code = generate_code(Language::Php, "it's", &flags(true, false, false, true, false), EngineLevel::Basic);
    assert!(code.starts_with("$pattern = '/it\\'s/iu';\n\npreg_match_all("));
    let plain = generate_code(Language::Php, "a", &flags(false, false, false, false, false), EngineLevel::Basic);
    assert!(plain.starts_with("$pattern = '/a/';\n\n"));
}
