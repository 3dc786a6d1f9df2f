//! Code generation: a snippet, in one of six languages, that compiles the
//! pattern with the chosen options and prints every match.

use vstd::prelude::*;
use crate::engine::{EngineLevel, RegexFlags, inline_prefix};
use crate::text::{chars_of, lemma_contains_concat, push_char, push_chars, push_str};

verus! {

/// The languages that code can be generated for.
#[derive(Debug, Clone, Copy, PartialEq, Eq, Structural)]
pub enum Language {
    Rust,
    Python,
    JavaScript,
    Go,
    Java,
    Php,
}

/// The name under which a language is shown.
pub open spec fn language_name(l: Language) -> Seq<char> {
    match l {
        Language::Rust => "Rust"@,
        Language::Python => "Python"@,
        Language::JavaScript => "JavaScript"@,
        Language::Go => "Go"@,
        Language::Java => "Java"@,
        Language::Php => "PHP"@,
    }
}

impl Language {
    /// Every language, in the order they are offered.
    pub const ALL: [Language; 6] = [
        Language::Rust,
        Language::Python,
        Language::JavaScript,
        Language::Go,
        Language::Java,
        Language::Php,
    ];

    /// The name under which the language is shown.
    pub fn name(&self) -> (s: &'static str)
        ensures
            s@ == language_name(*self),
    {
        match self {
            Language::Rust => "Rust",
            Language::Python => "Python",
            Language::JavaScript => "JavaScript",
            Language::Go => "Go",
            Language::Java => "Java",
            Language::Php => "PHP",
        }
    }
}


// ===== Escaping a pattern into a string literal =====

/// How a language's string literal must escape the pattern: a
/// double-quoted literal escapes `"`, a single-quoted one `'`; the
/// JavaScript one also escapes `/`. All escape `\`, newline, carriage
/// return and tab.
#[derive(Clone, Copy)]
pub enum QuoteStyle {
    Double,
    Single,
    SingleSlash,
}

/// The escape of one character.
pub open spec fn escape_char(style: QuoteStyle, c: char) -> Seq<char> {
    if c == '\\' {
        seq!['\\', '\\']
    } else if c == '"' && style is Double {
        seq!['\\', '"']
    } else if c == '\'' && !(style is Double) {
        seq!['\\', '\'']
    } else if c == '\n' {
        seq!['\\', 'n']
    } else if c == '\r' {
        seq!['\\', 'r']
    } else if c == '\t' {
        seq!['\\', 't']
    } else if c == '/' && style is SingleSlash {
        seq!['\\', '/']
    } else {
        seq![c]
    }
}

/// The escape of every character of `s`, in order.
pub open spec fn escape_seq(style: QuoteStyle, s: Seq<char>) -> Seq<char>
    decreases s.len(),
{
    if s.len() == 0 {
        Seq::empty()
    } else {
        escape_seq(style, s.drop_last()) + escape_char(style, s.last())
    }
}

fn push_escaped_char(out: &mut String, style: QuoteStyle, c: char)
    ensures
        final(out)@ == old(out)@ + escape_char(style, c),
{
    let double = match style {
        QuoteStyle::Double => true,
        _ => false,
    };
    let slash = match style {
        QuoteStyle::SingleSlash => true,
        _ => false,
    };
    if c == '\\' {
        push_char(out, '\\');
        push_char(out, '\\');
    } else if c == '"' && double {
        push_char(out, '\\');
        push_char(out, '"');
    } else if c == '\'' && !double {
        push_char(out, '\\');
        push_char(out, '\'');
    } else if c == '\n' {
        push_char(out, '\\');
        push_char(out, 'n');
    } else if c == '\r' {
        push_char(out, '\\');
        push_char(out, 'r');
    } else if c == '\t' {
        push_char(out, '\\');
        push_char(out, 't');
    } else if c == '/' && slash {
        push_char(out, '\\');
        push_char(out, '/');
    } else {
        push_char(out, c);
    }
    assert(out@ =~= old(out)@ + escape_char(style, c));
}

fn escape_with(s: &str, style: QuoteStyle) -> (out: String)
    ensures
        out@ == escape_seq(style, s@),
{
    let cs = chars_of(s);
    let mut out = String::new();
    let mut i: usize = 0;
    while i < cs.len()
        invariant
            i <= cs@.len(),
            cs@ == s@,
            out@ == escape_seq(style, cs@.take(i as int)),
        decreases cs@.len() - i,
    {
        let ghost before = cs@.take(i as int);
        push_escaped_char(&mut out, style, cs[i]);
        i += 1;
        assert(cs@.take(i as int).drop_last() =~= before);
    }
    assert(cs@.take(i as int) =~= s@);
    out
}

/// The pattern escaped for a Rust string literal.
fn escape_rust_string(s: &str) -> (out: String)
    ensures
        out@ == escape_seq(QuoteStyle::Double, s@),
{
    escape_with(s, QuoteStyle::Double)
}

/// The pattern escaped for a Python raw string literal in single quotes.
fn escape_python_string(s: &str) -> (out: String)
    ensures
        out@ == escape_seq(QuoteStyle::Single, s@),
{
    escape_with(s, QuoteStyle::Single)
}

/// The pattern escaped for a JavaScript string literal in single quotes.
fn escape_js_string(s: &str) -> (out: String)
    ensures
        out@ == escape_seq(QuoteStyle::SingleSlash, s@),
{
    escape_with(s, QuoteStyle::SingleSlash)
}

/// The pattern escaped for a Go string literal.
fn escape_go_string(s: &str) -> (out: String)
    ensures
        out@ == escape_seq(QuoteStyle::Double, s@),
{
    escape_with(s, QuoteStyle::Double)
}

/// The pattern escaped for a Java string literal.
fn escape_java_string(s: &str) -> (out: String)
    ensures
        out@ == escape_seq(QuoteStyle::Double, s@),
{
    escape_with(s, QuoteStyle::Double)
}

/// The pattern escaped for a PHP string literal in single quotes.
fn escape_php_string(s: &str) -> (out: String)
    ensures
        out@ == escape_seq(QuoteStyle::Single, s@),
{
    escape_with(s, QuoteStyle::Single)
}

// ===== Option lists =====

/// `x` when `b` holds, nothing otherwise.
pub open spec fn part_if(b: bool, x: Seq<char>) -> Seq<Seq<char>> {
    if b { seq![x] } else { Seq::empty() }
}

/// The views of a list of string slices.
pub open spec fn strs_view(v: Seq<&str>) -> Seq<Seq<char>> {
    v.map_values(|x: &str| x@)
}

/// The parts joined, `sep` between each two.
pub open spec fn join_seq(parts: Seq<Seq<char>>, sep: Seq<char>) -> Seq<char>
    decreases parts.len(),
{
    if parts.len() == 0 {
        Seq::empty()
    } else if parts.len() == 1 {
        parts[0]
    } else {
        join_seq(parts.drop_last(), sep) + sep + parts.last()
    }
}

fn join_strs(parts: &Vec<&'static str>, sep: &str) -> (out: String)
    ensures
        out@ == join_seq(strs_view(parts@), sep@),
{
    let ghost pv = strs_view(parts@);
    let mut out = String::new();
    let mut i: usize = 0;
    while i < parts.len()
        invariant
            i <= parts@.len(),
            pv == strs_view(parts@),
            out@ == join_seq(pv.take(i as int), sep@),
        decreases parts@.len() - i,
    {
        let ghost before = pv.take(i as int);
        if i > 0 {
            push_str(&mut out, sep);
        }
        push_str(&mut out, parts[i]);
        i += 1;
        assert(pv.take(i as int).drop_last() =~= before);
        assert(pv.take(i as int).last() == parts@[i - 1]@);
        if i == 1 {
            assert(out@ =~= join_seq(pv.take(i as int), sep@));
        }
    }
    assert(pv.take(i as int) =~= pv);
    out
}

fn push_part_if(v: &mut Vec<&'static str>, b: bool, x: &'static str)
    ensures
        strs_view(final(v)@) == strs_view(old(v)@) + part_if(b, x@),
{
    if b {
        v.push(x);
    }
    assert(strs_view(v@) =~= strs_view(old(v)@) + part_if(b, x@));
}

/// The `re` module's names of the switched-on options.
pub open spec fn python_flag_names(f: RegexFlags) -> Seq<Seq<char>> {
    part_if(f.case_insensitive, "re.IGNORECASE"@) + part_if(f.multiline, "re.MULTILINE"@) + part_if(
        f.dot_matches_newline,
        "re.DOTALL"@,
    ) + part_if(f.unicode, "re.UNICODE"@) + part_if(f.extended, "re.VERBOSE"@)
}

fn flags_python(flags: &RegexFlags) -> (v: Vec<&'static str>)
    ensures
        strs_view(v@) == python_flag_names(*flags),
{
    let mut v: Vec<&'static str> = Vec::new();
    assert(strs_view(v@) =~= Seq::<Seq<char>>::empty());
    push_part_if(&mut v, flags.case_insensitive, "re.IGNORECASE");
    push_part_if(&mut v, flags.multiline, "re.MULTILINE");
    push_part_if(&mut v, flags.dot_matches_newline, "re.DOTALL");
    push_part_if(&mut v, flags.unicode, "re.UNICODE");
    push_part_if(&mut v, flags.extended, "re.VERBOSE");
    assert(strs_view(v@) =~= python_flag_names(*flags));
    v
}

/// The `Pattern` constants of the switched-on options.
pub open spec fn java_flag_names(f: RegexFlags) -> Seq<Seq<char>> {
    part_if(f.case_insensitive, "Pattern.CASE_INSENSITIVE"@) + part_if(f.multiline, "Pattern.MULTILINE"@)
        + part_if(f.dot_matches_newline, "Pattern.DOTALL"@) + part_if(
        f.unicode,
        "Pattern.UNICODE_CHARACTER_CLASS"@,
    ) + part_if(f.extended, "Pattern.COMMENTS"@)
}

fn flags_java(flags: &RegexFlags) -> (v: Vec<&'static str>)
    ensures
        strs_view(v@) == java_flag_names(*flags),
{
    let mut v: Vec<&'static str> = Vec::new();
    assert(strs_view(v@) =~= Seq::<Seq<char>>::empty());
    push_part_if(&mut v, flags.case_insensitive, "Pattern.CASE_INSENSITIVE");
    push_part_if(&mut v, flags.multiline, "Pattern.MULTILINE");
    push_part_if(&mut v, flags.dot_matches_newline, "Pattern.DOTALL");
    push_part_if(&mut v, flags.unicode, "Pattern.UNICODE_CHARACTER_CLASS");
    push_part_if(&mut v, flags.extended, "Pattern.COMMENTS");
    assert(strs_view(v@) =~= java_flag_names(*flags));
    v
}

/// `s` when `b` holds, nothing otherwise.
pub open spec fn text_if(b: bool, s: Seq<char>) -> Seq<char> {
    if b { s } else { Seq::empty() }
}

fn push_str_if(out: &mut String, b: bool, s: &str)
    ensures
        final(out)@ == old(out)@ + text_if(b, s@),
{
    if b {
        push_str(out, s);
    }
    assert(out@ =~= old(out)@ + text_if(b, s@));
}

/// The JavaScript flags: `g`, then `i`, `m`, `s`, `u` for the switched-on
/// options (JavaScript has no extended mode).
pub open spec fn js_flags(f: RegexFlags) -> Seq<char> {
    seq!['g'] + text_if(f.case_insensitive, seq!['i']) + text_if(f.multiline, seq!['m']) + text_if(
        f.dot_matches_newline,
        seq!['s'],
    ) + text_if(f.unicode, seq!['u'])
}

fn flags_suffix_js(flags: &RegexFlags) -> (s: String)
    ensures
        s@ == js_flags(*flags),
{
    let mut s = String::new();
    push_char(&mut s, 'g');
    push_str_if(&mut s, flags.case_insensitive, "i");
    push_str_if(&mut s, flags.multiline, "m");
    push_str_if(&mut s, flags.dot_matches_newline, "s");
    push_str_if(&mut s, flags.unicode, "u");
    proof {
        reveal_strlit("i");
        reveal_strlit("m");
        reveal_strlit("s");
        reveal_strlit("u");
    }
    assert(s@ =~= js_flags(*flags));
    s
}


// ===== The snippets =====

/// The Rust snippet: for the basic engine a `RegexBuilder` with the options
/// that differ from its defaults; for fancy-regex the options as an inline
/// group in the pattern; for PCRE2 a `RegexBuilder` with the options set.
pub open spec fn rust_code(p: Seq<char>, f: RegexFlags, engine: EngineLevel) -> Seq<char> {
    let esc = escape_seq(QuoteStyle::Double, p);
    match engine {
        EngineLevel::Basic => "use regex::RegexBuilder;\n\n"@ + "let re = RegexBuilder::new(\""@ + esc + "\")\n"@
            + text_if(f.case_insensitive, "    .case_insensitive(true)\n"@) + text_if(
            f.multiline,
            "    .multi_line(true)\n"@,
        ) + text_if(f.dot_matches_newline, "    .dot_matches_new_line(true)\n"@) + text_if(
            !f.unicode,
            "    .unicode(false)\n"@,
        ) + "    .build()\n    .unwrap();\n\n"@ + "for m in re.find_iter(text) {\n"@
            + "    println!(\"Match: {} [{}-{}]\", m.as_str(), m.start(), m.end());\n"@ + "}\n"@,
        EngineLevel::Fancy => {
            let pre = inline_prefix(f);
            let full = if pre.len() == 0 { esc } else { escape_seq(QuoteStyle::Double, pre) + esc };
            "use fancy_regex::Regex;\n\n"@ + "let re = Regex::new(\""@ + full + "\").unwrap();\n\n"@
                + "let mut start = 0;\n"@ + "while let Ok(Some(m)) = re.find_from_pos(text, start) {\n"@
                + "    println!(\"Match: {} [{}-{}]\", m.as_str(), m.start(), m.end());\n"@
                + "    start = if m.start() == m.end() { m.end() + 1 } else { m.end() };\n"@ + "}\n"@
        },
        EngineLevel::Pcre2 => "use pcre2::bytes::RegexBuilder;\n\n"@ + "let re = RegexBuilder::new()\n"@
            + text_if(f.case_insensitive, "    .caseless(true)\n"@) + text_if(
            f.multiline,
            "    .multi_line(true)\n"@,
        ) + text_if(f.dot_matches_newline, "    .dotall(true)\n"@) + text_if(
            f.extended,
            "    .extended(true)\n"@,
        ) + text_if(f.unicode, "    .utf(true)\n    .ucp(true)\n"@) + "    .build(\""@ + esc
            + "\")\n    .unwrap();\n\n"@ + "for m in re.find_iter(text.as_bytes()) {\n"@
            + "    let m = m.unwrap();\n"@
            + "    let matched = std::str::from_utf8(m.as_bytes()).unwrap();\n"@
            + "    println!(\"Match: {} [{}-{}]\", matched, m.start(), m.end());\n"@ + "}\n"@,
    }
}

fn generate_rust(pattern: &str, flags: &RegexFlags, engine: EngineLevel) -> (code: String)
    ensures
        code@ == rust_code(pattern@, *flags, engine),
{
    let escaped = escape_rust_string(pattern);
    let mut code = String::new();
    match engine {
        EngineLevel::Basic => {
            push_str(&mut code, "use regex::RegexBuilder;\n\n");
            push_str(&mut code, "let re = RegexBuilder::new(\"");
            push_str(&mut code, escaped.as_str());
            push_str(&mut code, "\")\n");
            push_str_if(&mut code, flags.case_insensitive, "    .case_insensitive(true)\n");
            push_str_if(&mut code, flags.multiline, "    .multi_line(true)\n");
            push_str_if(&mut code, flags.dot_matches_newline, "    .dot_matches_new_line(true)\n");
            push_str_if(&mut code, !flags.unicode, "    .unicode(false)\n");
            push_str(&mut code, "    .build()\n    .unwrap();\n\n");
            push_str(&mut code, "for m in re.find_iter(text) {\n");
            push_str(&mut code, "    println!(\"Match: {} [{}-{}]\", m.as_str(), m.start(), m.end());\n");
            push_str(&mut code, "}\n");
        },
        EngineLevel::Fancy => {
            push_str(&mut code, "use fancy_regex::Regex;\n\n");
            let prefix = flags.as_prefix();
            push_str(&mut code, "let re = Regex::new(\"");
            if !prefix.as_str().is_empty() {
                let ep = escape_rust_string(prefix.as_str());
                push_str(&mut code, ep.as_str());
            }
            push_str(&mut code, escaped.as_str());
            push_str(&mut code, "\").unwrap();\n\n");
            push_str(&mut code, "let mut start = 0;\n");
            push_str(&mut code, "while let Ok(Some(m)) = re.find_from_pos(text, start) {\n");
            push_str(&mut code, "    println!(\"Match: {} [{}-{}]\", m.as_str(), m.start(), m.end());\n");
            push_str(&mut code, "    start = if m.start() == m.end() { m.end() + 1 } else { m.end() };\n");
            push_str(&mut code, "}\n");
        },
        EngineLevel::Pcre2 => {
            push_str(&mut code, "use pcre2::bytes::RegexBuilder;\n\n");
            push_str(&mut code, "let re = RegexBuilder::new()\n");
            push_str_if(&mut code, flags.case_insensitive, "    .caseless(true)\n");
            push_str_if(&mut code, flags.multiline, "    .multi_line(true)\n");
            push_str_if(&mut code, flags.dot_matches_newline, "    .dotall(true)\n");
            push_str_if(&mut code, flags.extended, "    .extended(true)\n");
            push_str_if(&mut code, flags.unicode, "    .utf(true)\n    .ucp(true)\n");
            push_str(&mut code, "    .build(\"");
            push_str(&mut code, escaped.as_str());
            push_str(&mut code, "\")\n    .unwrap();\n\n");
            push_str(&mut code, "for m in re.find_iter(text.as_bytes()) {\n");
            push_str(&mut code, "    let m = m.unwrap();\n");
            push_str(&mut code, "    let matched = std::str::from_utf8(m.as_bytes()).unwrap();\n");
            push_str(&mut code, "    println!(\"Match: {} [{}-{}]\", matched, m.start(), m.end());\n");
            push_str(&mut code, "}\n");
        },
    }
    assert(code@ =~= rust_code(pattern@, *flags, engine));
    code
}


/// The Python snippet: `re.compile` on a raw string, with the options as
/// `re` flags joined by `|`.
pub open spec fn python_code(p: Seq<char>, f: RegexFlags) -> Seq<char> {
    let esc = escape_seq(QuoteStyle::Single, p);
    let names = python_flag_names(f);
    "import re\n\n"@ + (if names.len() == 0 {
        "pattern = re.compile(r'"@ + esc + "')\n\n"@
    } else {
        "pattern = re.compile(r'"@ + esc + "', "@ + join_seq(names, " | "@) + ")\n\n"@
    }) + "for match in pattern.finditer(text):\n"@
        + "    print(f'Match: {match.group()} [{match.start()}-{match.end()}]')\n"@
}

fn generate_python(pattern: &str, flags: &RegexFlags) -> (code: String)
    ensures
        code@ == python_code(pattern@, *flags),
{
    let escaped = escape_python_string(pattern);
    let py_flags = flags_python(flags);
    let mut code = String::new();
    push_str(&mut code, "import re\n\n");
    push_str(&mut code, "pattern = re.compile(r'");
    push_str(&mut code, escaped.as_str());
    if py_flags.len() == 0 {
        push_str(&mut code, "')\n\n");
    } else {
        push_str(&mut code, "', ");
        let joined = join_strs(&py_flags, " | ");
        push_str(&mut code, joined.as_str());
        push_str(&mut code, ")\n\n");
    }
    push_str(&mut code, "for match in pattern.finditer(text):\n");
    push_str(&mut code, "    print(f'Match: {match.group()} [{match.start()}-{match.end()}]')\n");
    assert(code@ =~= python_code(pattern@, *flags));
    code
}

/// The JavaScript snippet: a global `RegExp` with the options as flags.
pub open spec fn javascript_code(p: Seq<char>, f: RegexFlags) -> Seq<char> {
    "const re = new RegExp('"@ + escape_seq(QuoteStyle::SingleSlash, p) + "', '"@ + js_flags(f) + "');\n\n"@
        + "let match;\n"@ + "while ((match = re.exec(text)) !== null) {\n"@
        + "  console.log(`Match: ${match[0]} [${match.index}-${match.index + match[0].length}]`);\n"@
        + "}\n"@
}

fn generate_javascript(pattern: &str, flags: &RegexFlags) -> (code: String)
    ensures
        code@ == javascript_code(pattern@, *flags),
{
    let escaped = escape_js_string(pattern);
    let js = flags_suffix_js(flags);
    let mut code = String::new();
    push_str(&mut code, "const re = new RegExp('");
    push_str(&mut code, escaped.as_str());
    push_str(&mut code, "', '");
    push_str(&mut code, js.as_str());
    push_str(&mut code, "');\n\n");
    push_str(&mut code, "let match;\n");
    push_str(&mut code, "while ((match = re.exec(text)) !== null) {\n");
    push_str(&mut code, "  console.log(`Match: ${match[0]} [${match.index}-${match.index + match[0].length}]`);\n");
    push_str(&mut code, "}\n");
    assert(code@ =~= javascript_code(pattern@, *flags));
    code
}

/// The inline-flag group for Go: `(?` with `i`, `m`, `s` for the
/// switched-on options among those three, and `)`; empty when none is on.
pub open spec fn go_prefix(f: RegexFlags) -> Seq<char> {
    if f.case_insensitive || f.multiline || f.dot_matches_newline {
        "(?"@ + text_if(f.case_insensitive, seq!['i']) + text_if(f.multiline, seq!['m']) + text_if(
            f.dot_matches_newline,
            seq!['s'],
        ) + ")"@
    } else {
        Seq::empty()
    }
}

/// The Go snippet: `regexp.MustCompile` with the options as an inline group.
pub open spec fn go_code(p: Seq<char>, f: RegexFlags) -> Seq<char> {
    "import (\n    \"fmt\"\n    \"regexp\"\n)\n\n"@ + "re := regexp.MustCompile(\""@ + go_prefix(f)
        + escape_seq(QuoteStyle::Double, p) + "\")\n\n"@ + "matches := re.FindAllStringIndex(text, -1)\n"@
        + "for _, loc := range matches {\n"@
        + "    fmt.Printf(\"Match: %s [%d-%d]\\n\", text[loc[0]:loc[1]], loc[0], loc[1])\n"@ + "}\n"@
}

fn generate_go(pattern: &str, flags: &RegexFlags) -> (code: String)
    ensures
        code@ == go_code(pattern@, *flags),
{
    let escaped = escape_go_string(pattern);
    let mut prefix = String::new();
    if flags.case_insensitive || flags.multiline || flags.dot_matches_newline {
        push_str(&mut prefix, "(?");
        push_str_if(&mut prefix, flags.case_insensitive, "i");
        push_str_if(&mut prefix, flags.multiline, "m");
        push_str_if(&mut prefix, flags.dot_matches_newline, "s");
        push_str(&mut prefix, ")");
        proof {
            reveal_strlit("i");
            reveal_strlit("m");
            reveal_strlit("s");
        }
    }
    assert(prefix@ =~= go_prefix(*flags));
    let mut code = String::new();
    push_str(&mut code, "import (\n    \"fmt\"\n    \"regexp\"\n)\n\n");
    push_str(&mut code, "re := regexp.MustCompile(\"");
    push_str(&mut code, prefix.as_str());
    push_str(&mut code, escaped.as_str());
    push_str(&mut code, "\")\n\n");
    push_str(&mut code, "matches := re.FindAllStringIndex(text, -1)\n");
    push_str(&mut code, "for _, loc := range matches {\n");
    push_str(&mut code, "    fmt.Printf(\"Match: %s [%d-%d]\\n\", text[loc[0]:loc[1]], loc[0], loc[1])\n");
    push_str(&mut code, "}\n");
    assert(code@ =~= go_code(pattern@, *flags));
    code
}

/// The Java snippet: `Pattern.compile` with the options as `Pattern` flags
/// joined by `|`.
pub open spec fn java_code(p: Seq<char>, f: RegexFlags) -> Seq<char> {
    let esc = escape_seq(QuoteStyle::Double, p);
    let names = java_flag_names(f);
    "import java.util.regex.*;\n\n"@ + (if names.len() == 0 {
        "Pattern pattern = Pattern.compile(\""@ + esc + "\");\n"@
    } else {
        "Pattern pattern = Pattern.compile(\""@ + esc + "\", "@ + join_seq(names, " | "@) + ");\n"@
    }) + "Matcher matcher = pattern.matcher(text);\n\n"@ + "while (matcher.find()) {\n"@
        + "    System.out.printf(\"Match: %s [%d-%d]%n\", matcher.group(), matcher.start(), matcher.end());\n"@
        + "}\n"@
}

fn generate_java(pattern: &str, flags: &RegexFlags) -> (code: String)
    ensures
        code@ == java_code(pattern@, *flags),
{
    let escaped = escape_java_string(pattern);
    let flag_parts = flags_java(flags);
    let mut code = String::new();
    push_str(&mut code, "import java.util.regex.*;\n\n");
    push_str(&mut code, "Pattern pattern = Pattern.compile(\"");
    push_str(&mut code, escaped.as_str());
    if flag_parts.len() == 0 {
        push_str(&mut code, "\");\n");
    } else {
        push_str(&mut code, "\", ");
        let joined = join_strs(&flag_parts, " | ");
        push_str(&mut code, joined.as_str());
        push_str(&mut code, ");\n");
    }
    push_str(&mut code, "Matcher matcher = pattern.matcher(text);\n\n");
    push_str(&mut code, "while (matcher.find()) {\n");
    push_str(
        &mut code,
        "    System.out.printf(\"Match: %s [%d-%d]%n\", matcher.group(), matcher.start(), matcher.end());\n",
    );
    push_str(&mut code, "}\n");
    assert(code@ =~= java_code(pattern@, *flags));
    code
}

/// The PHP modifiers of the switched-on options, in the order `imsux`.
pub open spec fn php_modifiers(f: RegexFlags) -> Seq<char> {
    text_if(f.case_insensitive, seq!['i']) + text_if(f.multiline, seq!['m']) + text_if(
        f.dot_matches_newline,
        seq!['s'],
    ) + text_if(f.unicode, seq!['u']) + text_if(f.extended, seq!['x'])
}

/// The PHP snippet: `preg_match_all` on a `/.../` pattern with the options
/// as modifiers.
pub open spec fn php_code(p: Seq<char>, f: RegexFlags) -> Seq<char> {
    "$pattern = '/"@ + escape_seq(QuoteStyle::Single, p) + "/"@ + php_modifiers(f) + "';\n"@ + "\n"@
        + "preg_match_all($pattern, $text, $matches, PREG_OFFSET_CAPTURE);\n\n"@
        + "foreach ($matches[0] as $match) {\n"@ + "    $value = $match[0];\n"@
        + "    $offset = $match[1];\n"@ + "    $end = $offset + strlen($value);\n"@
        + "    echo \"Match: $value [$offset-$end]\\n\";\n"@ + "}\n"@
}

fn generate_php(pattern: &str, flags: &RegexFlags) -> (code: String)
    ensures
        code@ == php_code(pattern@, *flags),
{
    let escaped = escape_php_string(pattern);
    let mut modifiers = String::new();
    push_str_if(&mut modifiers, flags.case_insensitive, "i");
    push_str_if(&mut modifiers, flags.multiline, "m");
    push_str_if(&mut modifiers, flags.dot_matches_newline, "s");
    push_str_if(&mut modifiers, flags.unicode, "u");
    push_str_if(&mut modifiers, flags.extended, "x");
    proof {
        reveal_strlit("i");
        reveal_strlit("m");
        reveal_strlit("s");
        reveal_strlit("u");
        reveal_strlit("x");
    }
    assert(modifiers@ =~= php_modifiers(*flags));
    let mut code = String::new();
    push_str(&mut code, "$pattern = '/");
    push_str(&mut code, escaped.as_str());
    push_str(&mut code, "/");
    push_str(&mut code, modifiers.as_str());
    push_str(&mut code, "';\n");
    push_str(&mut code, "\n");
    push_str(&mut code, "preg_match_all($pattern, $text, $matches, PREG_OFFSET_CAPTURE);\n\n");
    push_str(&mut code, "foreach ($matches[0] as $match) {\n");
    push_str(&mut code, "    $value = $match[0];\n");
    push_str(&mut code, "    $offset = $match[1];\n");
    push_str(&mut code, "    $end = $offset + strlen($value);\n");
    push_str(&mut code, "    echo \"Match: $value [$offset-$end]\\n\";\n");
    push_str(&mut code, "}\n");
    assert(code@ =~= php_code(pattern@, *flags));
    code
}

/// The snippet for a language.
pub open spec fn code_for(lang: Language, p: Seq<char>, f: RegexFlags, engine: EngineLevel) -> Seq<char> {
    match lang {
        Language::Rust => rust_code(p, f, engine),
        Language::Python => python_code(p, f),
        Language::JavaScript => javascript_code(p, f),
        Language::Go => go_code(p, f),
        Language::Java => java_code(p, f),
        Language::Php => php_code(p, f),
    }
}

/// A snippet in `lang` that compiles `pattern` with `flags` and prints
/// every match; `engine` picks the crate for Rust.
pub fn generate_code(lang: Language, pattern: &str, flags: &RegexFlags, engine: EngineLevel) -> (code: String)
    ensures
        code@ == code_for(lang, pattern@, *flags, engine),
{
    match lang {
        Language::Rust => generate_rust(pattern, flags, engine),
        Language::Python => generate_python(pattern, flags),
        Language::JavaScript => generate_javascript(pattern, flags),
        Language::Go => generate_go(pattern, flags),
        Language::Java => generate_java(pattern, flags),
        Language::Php => generate_php(pattern, flags),
    }
}


// ===== Laws =====

/// The character that the escape `\c` stands for in the generated string
/// literals.
pub open spec fn unescape_char(c: char) -> char {
    if c == 'n' { '\n' } else if c == 'r' { '\r' } else if c == 't' { '\t' } else { c }
}

/// How a language reads an escaped string literal's contents: `\c` as the
/// character it stands for, any other character as itself.
pub open spec fn unescape_seq(e: Seq<char>) -> Seq<char>
    decreases e.len(),
{
    if e.len() == 0 {
        Seq::empty()
    } else if e[0] == '\\' && e.len() >= 2 {
        seq![unescape_char(e[1])] + unescape_seq(e.skip(2))
    } else {
        seq![e[0]] + unescape_seq(e.skip(1))
    }
}

proof fn lemma_escape_concat(style: QuoteStyle, a: Seq<char>, b: Seq<char>)
    ensures
        escape_seq(style, a + b) == escape_seq(style, a) + escape_seq(style, b),
    decreases b.len(),
{
    if b.len() == 0 {
        assert(a + b =~= a);
        assert(escape_seq(style, a) + escape_seq(style, b) =~= escape_seq(style, a));
    } else {
        lemma_escape_concat(style, a, b.drop_last());
        assert((a + b).drop_last() =~= a + b.drop_last());
        assert((a + b).last() == b.last());
        assert(escape_seq(style, a + b) =~= escape_seq(style, a) + escape_seq(style, b));
    }
}

proof fn lemma_unescape_one(style: QuoteStyle, c: char, rest: Seq<char>)
    ensures
        unescape_seq(escape_char(style, c) + rest) == seq![c] + unescape_seq(rest),
{
    let e = escape_char(style, c) + rest;
    if escape_char(style, c).len() == 2 {
        assert(e[0] == '\\');
        assert(e.skip(2) =~= rest);
    } else {
        assert(e[0] == c);
        assert(e.skip(1) =~= rest);
    }
}

/// An escaped pattern reads back as the pattern: escaping loses nothing,
/// whichever quoting the language uses.
pub proof fn law_escape_reads_back(style: QuoteStyle, s: Seq<char>)
    ensures
        unescape_seq(escape_seq(style, s)) == s,
    decreases s.len(),
{
    if s.len() > 0 {
        let head = seq![s[0]];
        let tail = s.drop_first();
        assert(head + tail =~= s);
        lemma_escape_concat(style, head, tail);
        assert(head.drop_last() =~= Seq::<char>::empty());
        assert(escape_seq(style, head.drop_last()) =~= Seq::<char>::empty());
        assert(head.last() == s[0]);
        assert(escape_seq(style, head) =~= escape_char(style, s[0]));
        lemma_unescape_one(style, s[0], escape_seq(style, tail));
        law_escape_reads_back(style, tail);
        assert(seq![s[0]] + tail =~= s);
    }
}

/// Whether `t` occurs in `s`.
pub open spec fn contains_text(s: Seq<char>, t: Seq<char>) -> bool {
    exists|k: int| 0 <= k && k + t.len() <= s.len() && #[trigger] s.subrange(k, k + t.len()) == t
}

proof fn lemma_contains_middle(a: Seq<char>, t: Seq<char>, c: Seq<char>)
    ensures
        contains_text(a + t + c, t),
{
    let s = a + t + c;
    let k = a.len() as int;
    assert(s.subrange(k, k + t.len()) =~= t);
}

spec fn rust_basic_head(p: Seq<char>) -> Seq<char> {
    "use regex::RegexBuilder;\n\n"@ + "let re = RegexBuilder::new(\""@ + escape_seq(QuoteStyle::Double, p) + "\")\n"@
}

spec fn rust_basic_tail() -> Seq<char> {
    "    .build()\n    .unwrap();\n\n"@ + "for m in re.find_iter(text) {\n"@
        + "    println!(\"Match: {} [{}-{}]\", m.as_str(), m.start(), m.end());\n"@ + "}\n"@
}

proof fn lemma_rust_basic_parts(p: Seq<char>, f: RegexFlags)
    ensures
        rust_code(p, f, EngineLevel::Basic) == rust_basic_head(p) + text_if(
            f.case_insensitive,
            "    .case_insensitive(true)\n"@,
        ) + text_if(f.multiline, "    .multi_line(true)\n"@) + text_if(
            f.dot_matches_newline,
            "    .dot_matches_new_line(true)\n"@,
        ) + text_if(!f.unicode, "    .unicode(false)\n"@) + rust_basic_tail(),
{
    assert(rust_code(p, f, EngineLevel::Basic) =~= rust_basic_head(p) + text_if(
        f.case_insensitive,
        "    .case_insensitive(true)\n"@,
    ) + text_if(f.multiline, "    .multi_line(true)\n"@) + text_if(
        f.dot_matches_newline,
        "    .dot_matches_new_line(true)\n"@,
    ) + text_if(!f.unicode, "    .unicode(false)\n"@) + rust_basic_tail());
}

/// The Rust snippet for the basic engine turns on each switched-on option
/// with its `RegexBuilder` call: `.case_insensitive(true)`,
/// `.multi_line(true)`, `.dot_matches_new_line(true)`, and `.unicode(false)`
/// when Unicode is off.
pub proof fn law_rust_builder_options(p: Seq<char>, f: RegexFlags)
    ensures
        f.case_insensitive ==> contains_text(rust_code(p, f, EngineLevel::Basic), "    .case_insensitive(true)\n"@),
        f.multiline ==> contains_text(rust_code(p, f, EngineLevel::Basic), "    .multi_line(true)\n"@),
        f.dot_matches_newline ==> contains_text(
            rust_code(p, f, EngineLevel::Basic),
            "    .dot_matches_new_line(true)\n"@,
        ),
        !f.unicode ==> contains_text(rust_code(p, f, EngineLevel::Basic), "    .unicode(false)\n"@),
{
    let head = rust_basic_head(p);
    let ci = text_if(f.case_insensitive, "    .case_insensitive(true)\n"@);
    let ml = text_if(f.multiline, "    .multi_line(true)\n"@);
    let dn = text_if(f.dot_matches_newline, "    .dot_matches_new_line(true)\n"@);
    let un = text_if(!f.unicode, "    .unicode(false)\n"@);
    let tail = rust_basic_tail();
    lemma_rust_basic_parts(p, f);
    let code = rust_code(p, f, EngineLevel::Basic);
    if f.case_insensitive {
        assert(code =~= head + ci + (ml + dn + un + tail));
        lemma_contains_middle(head, ci, ml + dn + un + tail);
    }
    if f.multiline {
        assert(code =~= (head + ci) + ml + (dn + un + tail));
        lemma_contains_middle(head + ci, ml, dn + un + tail);
    }
    if f.dot_matches_newline {
        assert(code =~= (head + ci + ml) + dn + (un + tail));
        lemma_contains_middle(head + ci + ml, dn, un + tail);
    }
    if !f.unicode {
        assert(code =~= (head + ci + ml + dn) + un + tail);
        lemma_contains_middle(head + ci + ml + dn, un, tail);
    }
}

/// Switching one option on adds exactly its builder call to the basic
/// engine's Rust snippet: the snippet grows by that call's length.
pub proof fn law_rust_option_adds_its_call(p: Seq<char>, f: RegexFlags)
    ensures
        rust_code(p, RegexFlags { case_insensitive: true, ..f }, EngineLevel::Basic).len() == rust_code(
            p,
            RegexFlags { case_insensitive: false, ..f },
            EngineLevel::Basic,
        ).len() + "    .case_insensitive(true)\n"@.len(),
        rust_code(p, RegexFlags { multiline: true, ..f }, EngineLevel::Basic).len() == rust_code(
            p,
            RegexFlags { multiline: false, ..f },
            EngineLevel::Basic,
        ).len() + "    .multi_line(true)\n"@.len(),
        rust_code(p, RegexFlags { dot_matches_newline: true, ..f }, EngineLevel::Basic).len() == rust_code(
            p,
            RegexFlags { dot_matches_newline: false, ..f },
            EngineLevel::Basic,
        ).len() + "    .dot_matches_new_line(true)\n"@.len(),
        rust_code(p, RegexFlags { unicode: false, ..f }, EngineLevel::Basic).len() == rust_code(
            p,
            RegexFlags { unicode: true, ..f },
            EngineLevel::Basic,
        ).len() + "    .unicode(false)\n"@.len(),
{
    lemma_rust_basic_parts(p, RegexFlags { case_insensitive: true, ..f });
    lemma_rust_basic_parts(p, RegexFlags { case_insensitive: false, ..f });
    lemma_rust_basic_parts(p, RegexFlags { multiline: true, ..f });
    lemma_rust_basic_parts(p, RegexFlags { multiline: false, ..f });
    lemma_rust_basic_parts(p, RegexFlags { dot_matches_newline: true, ..f });
    lemma_rust_basic_parts(p, RegexFlags { dot_matches_newline: false, ..f });
    lemma_rust_basic_parts(p, RegexFlags { unicode: true, ..f });
    lemma_rust_basic_parts(p, RegexFlags { unicode: false, ..f });
}

proof fn lemma_letter(b: bool, x: char, c: char)
    ensures
        text_if(b, seq![x]).contains(c) <==> (b && c == x),
{
    if b && c == x {
        assert(text_if(b, seq![x])[0] == c);
    }
}

proof fn lemma_letters(f: RegexFlags, c: char)
    ensures
        text_if(f.case_insensitive, seq!['i']).contains(c) <==> (f.case_insensitive && c == 'i'),
        text_if(f.multiline, seq!['m']).contains(c) <==> (f.multiline && c == 'm'),
        text_if(f.dot_matches_newline, seq!['s']).contains(c) <==> (f.dot_matches_newline && c == 's'),
        text_if(f.unicode, seq!['u']).contains(c) <==> (f.unicode && c == 'u'),
        text_if(f.extended, seq!['x']).contains(c) <==> (f.extended && c == 'x'),
{
    lemma_letter(f.case_insensitive, 'i', c);
    lemma_letter(f.multiline, 'm', c);
    lemma_letter(f.dot_matches_newline, 's', c);
    lemma_letter(f.unicode, 'u', c);
    lemma_letter(f.extended, 'x', c);
}


/// The flags of the JavaScript snippet start with `g`, to find every
/// match, and hold the letter of an option exactly when it is on: `i`
/// case-insensitive, `m` multi-line, `s` dot matches newline, `u` Unicode.
pub proof fn law_js_flag_letters(f: RegexFlags)
    ensures
        js_flags(f)[0] == 'g',
        js_flags(f).contains('i') <==> f.case_insensitive,
        js_flags(f).contains('m') <==> f.multiline,
        js_flags(f).contains('s') <==> f.dot_matches_newline,
        js_flags(f).contains('u') <==> f.unicode,
{
    let ci = text_if(f.case_insensitive, seq!['i']);
    let ml = text_if(f.multiline, seq!['m']);
    let dn = text_if(f.dot_matches_newline, seq!['s']);
    let un = text_if(f.unicode, seq!['u']);
    let g = seq!['g'];
    assert forall|c: char| #[trigger] js_flags(f).contains(c) <==> (c == 'g' || ci.contains(c) || ml.contains(c)
        || dn.contains(c) || un.contains(c)) by {
        lemma_letters(f, c);
        lemma_contains_concat(g, ci, c);
        lemma_contains_concat(g + ci, ml, c);
        lemma_contains_concat(g + ci + ml, dn, c);
        lemma_contains_concat(g + ci + ml + dn, un, c);
        lemma_letter(true, 'g', c);
    }
    lemma_letters(f, 'i');
    lemma_letters(f, 'm');
    lemma_letters(f, 's');
    lemma_letters(f, 'u');
}

/// The modifiers of the PHP snippet hold the letter of an option exactly
/// when it is on: `i`, `m`, `s`, `u`, `x`.
pub proof fn law_php_modifier_letters(f: RegexFlags)
    ensures
        php_modifiers(f).contains('i') <==> f.case_insensitive,
        php_modifiers(f).contains('m') <==> f.multiline,
        php_modifiers(f).contains('s') <==> f.dot_matches_newline,
        php_modifiers(f).contains('u') <==> f.unicode,
        php_modifiers(f).contains('x') <==> f.extended,
{
    let ci = text_if(f.case_insensitive, seq!['i']);
    let ml = text_if(f.multiline, seq!['m']);
    let dn = text_if(f.dot_matches_newline, seq!['s']);
    let un = text_if(f.unicode, seq!['u']);
    let ex = text_if(f.extended, seq!['x']);
    assert forall|c: char| #[trigger] php_modifiers(f).contains(c) <==> (ci.contains(c) || ml.contains(c)
        || dn.contains(c) || un.contains(c) || ex.contains(c)) by {
        lemma_letters(f, c);
        lemma_contains_concat(ci, ml, c);
        lemma_contains_concat(ci + ml, dn, c);
        lemma_contains_concat(ci + ml + dn, un, c);
        lemma_contains_concat(ci + ml + dn + un, ex, c);
    }
    lemma_letters(f, 'i');
    lemma_letters(f, 'm');
    lemma_letters(f, 's');
    lemma_letters(f, 'u');
    lemma_letters(f, 'x');
}

/// The inline group before the pattern in the Go snippet holds the letter
/// of an option exactly when it is on: `i`, `m`, `s`.
pub proof fn law_go_prefix_letters(f: RegexFlags)
    ensures
        go_prefix(f).contains('i') <==> f.case_insensitive,
        go_prefix(f).contains('m') <==> f.multiline,
        go_prefix(f).contains('s') <==> f.dot_matches_newline,
{
    reveal_strlit("(?");
    reveal_strlit(")");
    let ci = text_if(f.case_insensitive, seq!['i']);
    let ml = text_if(f.multiline, seq!['m']);
    let dn = text_if(f.dot_matches_newline, seq!['s']);
    let open = seq!['(', '?'];
    let close = seq![')'];
    lemma_letters(f, 'i');
    lemma_letters(f, 'm');
    lemma_letters(f, 's');
    if f.case_insensitive || f.multiline || f.dot_matches_newline {
        assert("(?"@ =~= open);
        assert(")"@ =~= close);
        assert forall|c: char| #[trigger] go_prefix(f).contains(c) <==> (open.contains(c) || ci.contains(c)
            || ml.contains(c) || dn.contains(c) || close.contains(c)) by {
            lemma_contains_concat(open, ci, c);
            lemma_contains_concat(open + ci, ml, c);
            lemma_contains_concat(open + ci + ml, dn, c);
            lemma_contains_concat(open + ci + ml + dn, close, c);
        }
        assert forall|c: char| open.contains(c) implies c == '(' || c == '?' by {
            if open.contains(c) {
                let k = choose|k: int| 0 <= k < open.len() && open[k] == c;
            }
        }
        lemma_letter(true, ')', 'i');
        lemma_letter(true, ')', 'm');
        lemma_letter(true, ')', 's');
    } else {
        assert(go_prefix(f) =~= Seq::<char>::empty());
    }
}

proof fn lemma_part(b: bool, x: Seq<char>, y: Seq<char>)
    ensures
        part_if(b, x).contains(y) <==> (b && y == x),
{
    if b && y == x {
        assert(part_if(b, x)[0] == y);
    }
}

/// The `re` flags of the Python snippet name an option exactly when it is
/// on: `re.IGNORECASE`, `re.MULTILINE`, `re.DOTALL`, `re.UNICODE`,
/// `re.VERBOSE`.
pub proof fn law_python_flag_names(f: RegexFlags)
    ensures
        python_flag_names(f).contains("re.IGNORECASE"@) <==> f.case_insensitive,
        python_flag_names(f).contains("re.MULTILINE"@) <==> f.multiline,
        python_flag_names(f).contains("re.DOTALL"@) <==> f.dot_matches_newline,
        python_flag_names(f).contains("re.UNICODE"@) <==> f.unicode,
        python_flag_names(f).contains("re.VERBOSE"@) <==> f.extended,
{
    let names = seq!["re.IGNORECASE"@, "re.MULTILINE"@, "re.DOTALL"@, "re.UNICODE"@, "re.VERBOSE"@];
    reveal_strlit("re.IGNORECASE");
    reveal_strlit("re.MULTILINE");
    reveal_strlit("re.DOTALL");
    reveal_strlit("re.UNICODE");
    reveal_strlit("re.VERBOSE");
    let a = part_if(f.case_insensitive, names[0]);
    let b = part_if(f.multiline, names[1]);
    let c = part_if(f.dot_matches_newline, names[2]);
    let d = part_if(f.unicode, names[3]);
    let e = part_if(f.extended, names[4]);
    assert forall|k: int| 0 <= k < 5 implies #[trigger] python_flag_names(f).contains(names[k]) == (a.contains(
        names[k],
    ) || b.contains(names[k]) || c.contains(names[k]) || d.contains(names[k]) || e.contains(names[k])) by {
        lemma_contains_concat(a, b, names[k]);
        lemma_contains_concat(a + b, c, names[k]);
        lemma_contains_concat(a + b + c, d, names[k]);
        lemma_contains_concat(a + b + c + d, e, names[k]);
    }
    assert forall|k: int| 0 <= k < 5 implies (#[trigger] names[k]).len() > 3 && names[k][3] == (if k == 0 {
        'I'
    } else if k == 1 {
        'M'
    } else if k == 2 {
        'D'
    } else if k == 3 {
        'U'
    } else {
        'V'
    }) by {}
    assert forall|j: int, k: int| 0 <= j < 5 && 0 <= k < 5 && j != k implies #[trigger] names[j] != #[trigger] names[k] by {
        assert(names[j][3] != names[k][3]);
    }
    assert forall|k: int| 0 <= k < 5 implies {
        &&& (#[trigger] names[k]) == names[k]
        &&& a.contains(names[k]) <==> (f.case_insensitive && k == 0)
        &&& b.contains(names[k]) <==> (f.multiline && k == 1)
        &&& c.contains(names[k]) <==> (f.dot_matches_newline && k == 2)
        &&& d.contains(names[k]) <==> (f.unicode && k == 3)
        &&& e.contains(names[k]) <==> (f.extended && k == 4)
    } by {
        lemma_part(f.case_insensitive, names[0], names[k]);
        lemma_part(f.multiline, names[1], names[k]);
        lemma_part(f.dot_matches_newline, names[2], names[k]);
        lemma_part(f.unicode, names[3], names[k]);
        lemma_part(f.extended, names[4], names[k]);
    }
    assert(python_flag_names(f) == a + b + c + d + e);
    assert(python_flag_names(f).contains(names[0]) == python_flag_names(f).contains(names[0]));
    assert(python_flag_names(f).contains(names[1]) == python_flag_names(f).contains(names[1]));
    assert(python_flag_names(f).contains(names[2]) == python_flag_names(f).contains(names[2]));
    assert(python_flag_names(f).contains(names[3]) == python_flag_names(f).contains(names[3]));
    assert(python_flag_names(f).contains(names[4]) == python_flag_names(f).contains(names[4]));
}

/// The `Pattern` flags of the Java snippet name an option exactly when it
/// is on: `CASE_INSENSITIVE`, `MULTILINE`, `DOTALL`,
/// `UNICODE_CHARACTER_CLASS`, `COMMENTS`.
pub proof fn law_java_flag_names(f: RegexFlags)
    ensures
        java_flag_names(f).contains("Pattern.CASE_INSENSITIVE"@) <==> f.case_insensitive,
        java_flag_names(f).contains("Pattern.MULTILINE"@) <==> f.multiline,
        java_flag_names(f).contains("Pattern.DOTALL"@) <==> f.dot_matches_newline,
        java_flag_names(f).contains("Pattern.UNICODE_CHARACTER_CLASS"@) <==> f.unicode,
        java_flag_names(f).contains("Pattern.COMMENTS"@) <==> f.extended,
{
    let names = seq!["Pattern.CASE_INSENSITIVE"@, "Pattern.MULTILINE"@, "Pattern.DOTALL"@, "Pattern.UNICODE_CHARACTER_CLASS"@, "Pattern.COMMENTS"@];
    reveal_strlit("Pattern.CASE_INSENSITIVE");
    reveal_strlit("Pattern.MULTILINE");
    reveal_strlit("Pattern.DOTALL");
    reveal_strlit("Pattern.UNICODE_CHARACTER_CLASS");
    reveal_strlit("Pattern.COMMENTS");
    let a = part_if(f.case_insensitive, names[0]);
    let b = part_if(f.multiline, names[1]);
    let c = part_if(f.dot_matches_newline, names[2]);
    let d = part_if(f.unicode, names[3]);
    let e = part_if(f.extended, names[4]);
    assert forall|k: int| 0 <= k < 5 implies #[trigger] java_flag_names(f).contains(names[k]) == (a.contains(
        names[k],
    ) || b.contains(names[k]) || c.contains(names[k]) || d.contains(names[k]) || e.contains(names[k])) by {
        lemma_contains_concat(a, b, names[k]);
        lemma_contains_concat(a + b, c, names[k]);
        lemma_contains_concat(a + b + c, d, names[k]);
        lemma_contains_concat(a + b + c + d, e, names[k]);
    }
    assert forall|k: int| 0 <= k < 5 implies (#[trigger] names[k]).len() > 10 && names[k][10] == (if k == 0 {
        'S'
    } else if k == 1 {
        'L'
    } else if k == 2 {
        'T'
    } else if k == 3 {
        'I'
    } else {
        'M'
    }) by {}
    assert forall|j: int, k: int| 0 <= j < 5 && 0 <= k < 5 && j != k implies #[trigger] names[j] != #[trigger] names[k] by {
        assert(names[j][10] != names[k][10]);
    }
    assert forall|k: int| 0 <= k < 5 implies {
        &&& (#[trigger] names[k]) == names[k]
        &&& a.contains(names[k]) <==> (f.case_insensitive && k == 0)
        &&& b.contains(names[k]) <==> (f.multiline && k == 1)
        &&& c.contains(names[k]) <==> (f.dot_matches_newline && k == 2)
        &&& d.contains(names[k]) <==> (f.unicode && k == 3)
        &&& e.contains(names[k]) <==> (f.extended && k == 4)
    } by {
        lemma_part(f.case_insensitive, names[0], names[k]);
        lemma_part(f.multiline, names[1], names[k]);
        lemma_part(f.dot_matches_newline, names[2], names[k]);
        lemma_part(f.unicode, names[3], names[k]);
        lemma_part(f.extended, names[4], names[k]);
    }
    assert(java_flag_names(f) == a + b + c + d + e);
    assert(java_flag_names(f).contains(names[0]) == java_flag_names(f).contains(names[0]));
    assert(java_flag_names(f).contains(names[1]) == java_flag_names(f).contains(names[1]));
    assert(java_flag_names(f).contains(names[2]) == java_flag_names(f).contains(names[2]));
    assert(java_flag_names(f).contains(names[3]) == java_flag_names(f).contains(names[3]));
    assert(java_flag_names(f).contains(names[4]) == java_flag_names(f).contains(names[4]));
}

proof fn lemma_contains_end(a: Seq<char>, t: Seq<char>)
    ensures
        contains_text(a + t, t),
{
    let k = a.len() as int;
    assert((a + t).subrange(k, k + t.len()) =~= t);
}

proof fn lemma_contains_extend(s: Seq<char>, y: Seq<char>, t: Seq<char>)
    requires
        contains_text(s, t),
    ensures
        contains_text(s + y, t),
{
    let k = choose|k: int| 0 <= k && k + t.len() <= s.len() && #[trigger] s.subrange(k, k + t.len()) == t;
    assert((s + y).subrange(k, k + t.len()) =~= s.subrange(k, k + t.len()));
}

spec fn rust_pcre_head() -> Seq<char> {
    "use pcre2::bytes::RegexBuilder;\n\n"@ + "let re = RegexBuilder::new()\n"@
}

spec fn rust_pcre_tail(p: Seq<char>) -> Seq<char> {
    "    .build(\""@ + escape_seq(QuoteStyle::Double, p) + "\")\n    .unwrap();\n\n"@
        + "for m in re.find_iter(text.as_bytes()) {\n"@ + "    let m = m.unwrap();\n"@
        + "    let matched = std::str::from_utf8(m.as_bytes()).unwrap();\n"@
        + "    println!(\"Match: {} [{}-{}]\", matched, m.start(), m.end());\n"@ + "}\n"@
}

proof fn lemma_rust_pcre_parts(p: Seq<char>, f: RegexFlags)
    ensures
        rust_code(p, f, EngineLevel::Pcre2) == rust_pcre_head() + text_if(f.case_insensitive, "    .caseless(true)\n"@)
            + text_if(f.multiline, "    .multi_line(true)\n"@) + text_if(f.dot_matches_newline, "    .dotall(true)\n"@)
            + text_if(f.extended, "    .extended(true)\n"@) + text_if(f.unicode, "    .utf(true)\n    .ucp(true)\n"@)
            + rust_pcre_tail(p),
{
    assert(rust_code(p, f, EngineLevel::Pcre2) =~= rust_pcre_head() + text_if(
        f.case_insensitive,
        "    .caseless(true)\n"@,
    ) + text_if(f.multiline, "    .multi_line(true)\n"@) + text_if(f.dot_matches_newline, "    .dotall(true)\n"@)
        + text_if(f.extended, "    .extended(true)\n"@) + text_if(f.unicode, "    .utf(true)\n    .ucp(true)\n"@)
        + rust_pcre_tail(p));
}

/// The Rust snippet for PCRE2 turns on each switched-on option with its
/// `RegexBuilder` call: `.caseless(true)`, `.multi_line(true)`,
/// `.dotall(true)`, `.extended(true)`, and `.utf(true)` with `.ucp(true)`
/// for Unicode.
pub proof fn law_rust_pcre_builder_options(p: Seq<char>, f: RegexFlags)
    ensures
        f.case_insensitive ==> contains_text(rust_code(p, f, EngineLevel::Pcre2), "    .caseless(true)\n"@),
        f.multiline ==> contains_text(rust_code(p, f, EngineLevel::Pcre2), "    .multi_line(true)\n"@),
        f.dot_matches_newline ==> contains_text(rust_code(p, f, EngineLevel::Pcre2), "    .dotall(true)\n"@),
        f.extended ==> contains_text(rust_code(p, f, EngineLevel::Pcre2), "    .extended(true)\n"@),
        f.unicode ==> contains_text(rust_code(p, f, EngineLevel::Pcre2), "    .utf(true)\n    .ucp(true)\n"@),
{
    let head = rust_pcre_head();
    let ci = text_if(f.case_insensitive, "    .caseless(true)\n"@);
    let ml = text_if(f.multiline, "    .multi_line(true)\n"@);
    let dn = text_if(f.dot_matches_newline, "    .dotall(true)\n"@);
    let ex = text_if(f.extended, "    .extended(true)\n"@);
    let un = text_if(f.unicode, "    .utf(true)\n    .ucp(true)\n"@);
    let tail = rust_pcre_tail(p);
    lemma_rust_pcre_parts(p, f);
    let s1 = head + ci;
    let s2 = s1 + ml;
    let s3 = s2 + dn;
    let s4 = s3 + ex;
    let s5 = s4 + un;
    lemma_contains_end(head, ci);
    lemma_contains_end(s1, ml);
    lemma_contains_end(s2, dn);
    lemma_contains_end(s3, ex);
    lemma_contains_end(s4, un);
    lemma_contains_extend(s1, ml, ci);
    lemma_contains_extend(s2, dn, ci);
    lemma_contains_extend(s3, ex, ci);
    lemma_contains_extend(s4, un, ci);
    lemma_contains_extend(s5, tail, ci);
    lemma_contains_extend(s2, dn, ml);
    lemma_contains_extend(s3, ex, ml);
    lemma_contains_extend(s4, un, ml);
    lemma_contains_extend(s5, tail, ml);
    lemma_contains_extend(s3, ex, dn);
    lemma_contains_extend(s4, un, dn);
    lemma_contains_extend(s5, tail, dn);
    lemma_contains_extend(s4, un, ex);
    lemma_contains_extend(s5, tail, ex);
    lemma_contains_extend(s5, tail, un);
}

} // verus!
