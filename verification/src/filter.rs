//! The line filter: lines read from a file or standard input are kept when
//! the pattern matches them (or, for JSON lines, a field chosen by a dotted
//! path), while the user edits the pattern.

use vstd::prelude::*;
use vstd::utf8::encode_utf8;
use crate::text::{
    decimal, push_decimal, byte_offset, char_index, cursor_at, cursor_ok, delete_before_cursor, insert_at_cursor, push_char, push_str,
    string_from,
};

verus! {

/// Where the lines come from, and the JSON field to match instead of the
/// whole line.
pub struct FilterConfig {
    pub json_field: Option<String>,
    pub file_path: Option<String>,
}

// ===== The outside crates =====

#[verifier::external_type_specification]
#[verifier::external_body]
pub struct ExJsonValue(serde_json::Value);

/// A JSON value as the filter reads it: an object's members (name and
/// value, in the map's order), an array's elements, a string's contents,
/// or any other value. Objects, arrays and other values keep the text that
/// `serde_json` writes for them (their `Display` text).
pub enum Json {
    Object(Vec<(String, Json)>, String),
    Array(Vec<Json>, String),
    Str(String),
    Scalar(String),
}

/// What `serde_json::from_str` reads a line as, in the library's form; none
/// when the line is not JSON.
pub uninterp spec fn parsed_json(line: Seq<char>) -> Option<Json>;

/// Whether a line is JSON.
pub open spec fn json_parses(line: Seq<char>) -> bool {
    parsed_json(line) is Some
}

/// `serde_json::from_str` into a `serde_json::Value`, carried over into the
/// library's form. The contract claims only that the outcome is the
/// crate's, a function of the line.
#[verifier::external_body]
fn json_parse(line: &str) -> (r: Option<Json>)
    ensures
        r == parsed_json(line@),
{
    match serde_json::from_str::<serde_json::Value>(line) {
        Ok(v) => Some(json_of(&v)),
        Err(_) => None,
    }
}

/// A `serde_json::Value` in the library's form, variant for variant:
/// members in the map's order, elements in order, and the value's
/// `Display` text where kept.
#[verifier::external_body]
fn json_of(v: &serde_json::Value) -> Json {
    match v {
        serde_json::Value::Object(m) => Json::Object(m.iter().map(|(k, x)| (k.clone(), json_of(x))).collect(), v.to_string()),
        serde_json::Value::Array(a) => Json::Array(a.iter().map(json_of).collect(), v.to_string()),
        serde_json::Value::String(t) => Json::Str(t.clone()),
        serde_json::Value::Null => Json::Scalar(v.to_string()),
        serde_json::Value::Bool(_) => Json::Scalar(v.to_string()),
        serde_json::Value::Number(_) => Json::Scalar(v.to_string()),
    }
}

/// The message of the error that `regex::Regex::new` gives for a pattern,
/// or none when it compiles the pattern.
pub uninterp spec fn line_regex_error(pattern: Seq<char>) -> Option<Seq<char>>;

/// Whether `regex::Regex::is_match`, for a pattern compiled by
/// `regex::Regex::new`, finds a match in a text.
pub uninterp spec fn line_is_match(pattern: Seq<char>, text: Seq<char>) -> bool;

/// A pattern compiled by `regex::Regex::new`, with the pattern it was
/// compiled from. Only `regex_new` makes one.
pub struct LineRegex {
    re: regex::Regex,
    pattern: String,
}

/// `regex::Regex::new`; the error as its message (its `Display` text). The
/// contract claims that the outcome is the crate's, a function of the
/// pattern.
#[verifier::external_body]
fn regex_new(pattern: &str) -> (r: Result<LineRegex, String>)
    ensures
        match line_regex_error(pattern@) {
            None => r matches Ok(l) && l.pattern@ == pattern@,
            Some(msg) => r matches Err(e) && e@ == msg,
        },
{
    match regex::Regex::new(pattern) {
        Ok(re) => Ok(LineRegex { re, pattern: pattern.to_string() }),
        Err(e) => Err(e.to_string()),
    }
}

/// `regex::Regex::is_match`. The contract claims that the answer is the
/// crate's, a function of the pattern and the text.
#[verifier::external_body]
fn regex_is_match(l: &LineRegex, text: &str) -> (r: bool)
    ensures
        r == line_is_match(l.pattern@, text@),
{
    l.re.is_match(text)
}

/// The chosen JSON field as values.
pub open spec fn field_view(f: Option<String>) -> Option<Seq<char>> {
    match f {
        Some(t) => Some(t@),
        None => None,
    }
}

/// The indexes, in order, of the lines below `n` whose target (see
/// `target_text`) the pattern matches.
pub open spec fn matching_lines(pattern: Seq<char>, field: Option<Seq<char>>, lines: Seq<String>, n: int) -> Seq<usize>
    decreases n,
{
    if n <= 0 {
        Seq::empty()
    } else {
        let before = matching_lines(pattern, field, lines, n - 1);
        if line_is_match(pattern, target_text(field, lines[n - 1]@)) {
            before.push((n - 1) as usize)
        } else {
            before
        }
    }
}

// ===== Dotted paths =====

/// The pieces of `s` between dots (`str::split('.')`): as many as there are
/// dots, plus one; empty pieces included.
pub open spec fn split_dots(s: Seq<char>) -> Seq<Seq<char>>
    decreases s.len(),
{
    if s.len() == 0 {
        seq![Seq::empty()]
    } else {
        let rest = split_dots(s.drop_last());
        if s.last() == '.' {
            rest.push(Seq::empty())
        } else {
            rest.drop_last().push(rest.last().push(s.last()))
        }
    }
}

proof fn lemma_split_nonempty(s: Seq<char>)
    ensures
        split_dots(s).len() >= 1,
    decreases s.len(),
{
    if s.len() > 0 {
        lemma_split_nonempty(s.drop_last());
    }
}

/// The pieces of a dotted path.
pub fn split_path(path: &str) -> (r: Vec<String>)
    ensures
        r@.map_values(|x: String| x@) == split_dots(path@),
{
    let cs = crate::text::chars_of(path);
    let mut pieces: Vec<String> = Vec::new();
    let mut cur = String::new();
    let mut i: usize = 0;
    while i < cs.len()
        invariant
            i <= cs@.len(),
            cs@ == path@,
            pieces@.map_values(|x: String| x@).push(cur@) == split_dots(cs@.take(i as int)),
        decreases cs@.len() - i,
    {
        let ghost before = cs@.take(i as int);
        proof {
            lemma_split_nonempty(before);
            assert(cs@.take(i + 1).drop_last() =~= before);
        }
        if cs[i] == '.' {
            let done = cur;
            pieces.push(done);
            cur = String::new();
        } else {
            push_char(&mut cur, cs[i]);
        }
        i += 1;
        assert(pieces@.map_values(|x: String| x@).push(cur@) =~= split_dots(cs@.take(i as int)));
    }
    assert(cs@.take(i as int) =~= path@);
    pieces.push(cur);
    assert(pieces@.map_values(|x: String| x@) =~= split_dots(path@));
    pieces
}

/// Whether `c` is an ASCII digit.
pub open spec fn is_digit(c: char) -> bool {
    '0' <= c && c <= '9'
}

/// The number written in decimal by the digits `d`.
pub open spec fn decimal_value(d: Seq<char>) -> nat
    decreases d.len(),
{
    if d.len() == 0 {
        0
    } else {
        decimal_value(d.drop_last()) * 10 + ((d.last() as int - '0' as int) as nat)
    }
}

/// The part of `s` after an optional leading `+`.
pub open spec fn unsigned_part(s: Seq<char>) -> Seq<char> {
    if s.len() > 0 && s[0] == '+' { s.drop_first() } else { s }
}

/// Whether every character of `d` is a digit.
pub open spec fn all_digits(d: Seq<char>) -> bool {
    forall|k: int| 0 <= k < d.len() ==> is_digit(#[trigger] d[k])
}

/// What `usize::from_str` makes of `s`: an optional `+`, then one digit or
/// more, giving a number that fits; none otherwise.
pub open spec fn parse_usize_spec(s: Seq<char>) -> Option<usize> {
    let d = unsigned_part(s);
    if d.len() == 0 || !all_digits(d) {
        None
    } else if decimal_value(d) > usize::MAX {
        None
    } else {
        Some(decimal_value(d) as usize)
    }
}

/// A decimal index, as `usize::from_str` reads it.
pub fn parse_usize(s: &str) -> (r: Option<usize>)
    ensures
        r == parse_usize_spec(s@),
{
    let cs = crate::text::chars_of(s);
    let start: usize = if cs.len() > 0 && cs[0] == '+' { 1 } else { 0 };
    let ghost d = unsigned_part(s@);
    assert(d =~= cs@.skip(start as int));
    if start >= cs.len() {
        assert(d.len() == 0);
        return None;
    }
    let mut val: Option<usize> = Some(0);
    let mut i: usize = start;
    while i < cs.len()
        invariant
            start <= i <= cs@.len(),
            d == cs@.skip(start as int),
            d == unsigned_part(s@),
            forall|k: int| start <= k < i ==> is_digit(#[trigger] cs@[k]),
            val == (if decimal_value(cs@.subrange(start as int, i as int)) <= usize::MAX {
                Some(decimal_value(cs@.subrange(start as int, i as int)) as usize)
            } else {
                None::<usize>
            }),
        decreases cs@.len() - i,
    {
        let c = cs[i];
        if !(c >= '0' && c <= '9') {
            assert(d[i - start] == c);
            assert(!is_digit(d[i - start]));
            assert(d.len() > 0);
            assert(!all_digits(d));
            return None;
        }
        let digit = (c as u32 - '0' as u32) as usize;
        val = match val {
            Some(v) => match v.checked_mul(10) {
                Some(v10) => v10.checked_add(digit),
                None => None,
            },
            None => None,
        };
        assert(cs@.subrange(start as int, i + 1).drop_last() =~= cs@.subrange(start as int, i as int));
        i += 1;
    }
    assert(cs@.subrange(start as int, i as int) =~= d);
    assert forall|k: int| 0 <= k < d.len() implies is_digit(#[trigger] d[k]) by {
        assert(d[k] == cs@[k + start]);
    }
    val
}

/// The value of the first member named `key`, if any.
pub open spec fn member_of(m: Seq<(String, Json)>, key: Seq<char>) -> Option<Json>
    decreases m.len(),
{
    if m.len() == 0 {
        None
    } else if m[0].0@ == key {
        Some(m[0].1)
    } else {
        member_of(m.drop_first(), key)
    }
}

/// One step down a path: an object's member by name, an array's element
/// by index; none from any other value.
pub open spec fn json_step(v: Json, part: Seq<char>) -> Option<Json> {
    match v {
        Json::Object(m, _) => member_of(m@, part),
        Json::Array(a, _) => match parse_usize_spec(part) {
            Some(i) => if i < a@.len() { Some(a@[i as int]) } else { None },
            None => None,
        },
        _ => None,
    }
}

/// The value at the end of a path, if the path leads somewhere.
pub open spec fn json_walk(v: Json, parts: Seq<Seq<char>>) -> Option<Json>
    decreases parts.len(),
{
    if parts.len() == 0 {
        Some(v)
    } else {
        match json_step(v, parts[0]) {
            Some(w) => json_walk(w, parts.drop_first()),
            None => None,
        }
    }
}

/// The text of a value: a string's contents, any other value as JSON.
pub open spec fn json_text_of(v: Json) -> Seq<char> {
    match v {
        Json::Object(_, t) => t@,
        Json::Array(_, t) => t@,
        Json::Str(t) => t@,
        Json::Scalar(t) => t@,
    }
}

/// The text of the field at a dotted path, if the path leads somewhere.
pub open spec fn field_text(v: Json, path: Seq<char>) -> Option<Seq<char>> {
    match json_walk(v, split_dots(path)) {
        Some(w) => Some(json_text_of(w)),
        None => None,
    }
}

/// What the pattern is matched against in a line: with a field chosen and
/// a JSON line, the field's text (empty when the path leads nowhere); the
/// line itself otherwise.
pub open spec fn target_text(field: Option<Seq<char>>, line: Seq<char>) -> Seq<char> {
    match field {
        None => line,
        Some(f) => match parsed_json(line) {
            None => line,
            Some(v) => match field_text(v, f) {
                Some(t) => t,
                None => Seq::empty(),
            },
        },
    }
}

/// Whether two strings are equal.
fn same_text(a: &str, b: &str) -> (r: bool)
    ensures
        r == (a@ == b@),
{
    let ca = crate::text::chars_of(a);
    let cb = crate::text::chars_of(b);
    if ca.len() != cb.len() {
        return false;
    }
    let mut i: usize = 0;
    while i < ca.len()
        invariant
            ca@ == a@,
            cb@ == b@,
            ca@.len() == cb@.len(),
            i <= ca@.len(),
            forall|j: int| 0 <= j < i ==> ca@[j] == cb@[j],
        decreases ca@.len() - i,
    {
        if ca[i] != cb[i] {
            return false;
        }
        i += 1;
    }
    assert(a@ =~= b@);
    true
}

/// The value of the first member named `key`.
fn member<'a>(m: &'a Vec<(String, Json)>, key: &str) -> (r: Option<&'a Json>)
    ensures
        match r {
            Some(v) => member_of(m@, key@) == Some(*v),
            None => member_of(m@, key@) is None,
        },
{
    let mut j: usize = 0;
    assert(m@.skip(0) =~= m@);
    while j < m.len()
        invariant
            j <= m@.len(),
            member_of(m@, key@) == member_of(m@.skip(j as int), key@),
        decreases m@.len() - j,
    {
        assert(m@.skip(j as int).drop_first() =~= m@.skip(j + 1));
        if same_text(m[j].0.as_str(), key) {
            return Some(&m[j].1);
        }
        j += 1;
    }
    None
}

/// The text of the field at a dotted path in a JSON value (object members
/// by name, array elements by index): a string's contents, any other value
/// as JSON; none when the path leads nowhere.
fn json_field_text(value: &Json, path: &str) -> (r: Option<String>)
    ensures
        match r {
            Some(t) => field_text(*value, path@) == Some(t@),
            None => field_text(*value, path@) is None,
        },
{
    let parts = split_path(path);
    let ghost pv = parts@.map_values(|p: String| p@);
    let mut current = value;
    let mut i: usize = 0;
    assert(pv.skip(0) =~= pv);
    while i < parts.len()
        invariant
            i <= parts@.len(),
            pv == parts@.map_values(|p: String| p@),
            pv == split_dots(path@),
            json_walk(*value, pv) == json_walk(*current, pv.skip(i as int)),
        decreases parts@.len() - i,
    {
        assert(pv.skip(i as int)[0] == parts@[i as int]@);
        assert(pv.skip(i as int).drop_first() =~= pv.skip(i + 1));
        let next = match current {
            Json::Object(m, _) => member(m, parts[i].as_str()),
            Json::Array(a, _) => match parse_usize(parts[i].as_str()) {
                Some(idx) => if idx < a.len() {
                    Some(&a[idx])
                } else {
                    None
                },
                None => None,
            },
            _ => None,
        };
        current = match next {
            Some(v) => v,
            None => {
                return None;
            },
        };
        i += 1;
    }
    assert(pv.skip(i as int) =~= Seq::<Seq<char>>::empty());
    let t = match current {
        Json::Object(_, t) => t.clone(),
        Json::Array(_, t) => t.clone(),
        Json::Str(t) => t.clone(),
        Json::Scalar(t) => t.clone(),
    };
    Some(t)
}


// ===== The filter's state =====

/// The lines, the pattern being typed, and the lines it keeps.
pub struct FilterApp {
    pub pattern: String,
    pub cursor: usize,
    pub lines: Vec<String>,
    pub filtered: Vec<usize>,
    pub scroll: usize,
    pub json_field: Option<String>,
    pub error: Option<String>,
}

/// What the filter keeps after its pattern became `p`, from the state
/// `before`: every line for an empty pattern; the lines that `p` matches
/// when it compiles (back at the top of the list); otherwise the error, and
/// the lines and scroll position as they were.
pub open spec fn refiltered(p: Seq<char>, before: FilterApp, after: FilterApp) -> bool {
    if p.len() == 0 {
        &&& after.filtered@ == all_indices(before.lines@.len())
        &&& after.error is None
        &&& after.scroll == 0
    } else {
        match line_regex_error(p) {
            None => {
                &&& after.error is None
                &&& after.scroll == 0
                &&& after.filtered@ == matching_lines(
                    p,
                    field_view(before.json_field),
                    before.lines@,
                    before.lines@.len() as int,
                )
            },
            Some(msg) => {
                &&& after.error matches Some(e) && e@ == "Regex error: "@ + msg
                &&& after.filtered@ == before.filtered@
                &&& after.scroll == before.scroll
            },
        }
    }
}

/// The lines, the kept ones, the scroll position, the field and the error
/// are as they were.
pub open spec fn unmoved_list(before: FilterApp, after: FilterApp) -> bool {
    &&& after.lines@ == before.lines@
    &&& after.filtered@ == before.filtered@
    &&& after.scroll == before.scroll
    &&& after.json_field == before.json_field
    &&& after.error == before.error
}

/// Every index `0..n`, in order.
pub open spec fn all_indices(n: nat) -> Seq<usize> {
    Seq::new(n, |i: int| i as usize)
}

/// Indexes of lines, each below `n`, in increasing order.
pub open spec fn increasing_indices(v: Seq<usize>, n: nat) -> bool {
    &&& forall|i: int| 0 <= i < v.len() ==> #[trigger] v[i] < n
    &&& forall|i: int, j: int| 0 <= i < j < v.len() ==> v[i] < v[j]
}

fn all_lines(n: usize) -> (v: Vec<usize>)
    ensures
        v@ == all_indices(n as nat),
{
    let mut v: Vec<usize> = Vec::new();
    let mut i: usize = 0;
    while i < n
        invariant
            i <= n,
            v@ == all_indices(i as nat),
        decreases n - i,
    {
        v.push(i);
        i += 1;
        assert(v@ =~= all_indices(i as nat));
    }
    v
}

impl FilterApp {
    /// The cursor on a character boundary of the pattern, and the kept
    /// lines among the lines, in order.
    pub open spec fn wf(&self) -> bool {
        &&& cursor_ok(self.pattern@, self.cursor)
        &&& increasing_indices(self.filtered@, self.lines@.len())
    }

    /// An empty pattern that keeps every line.
    pub fn new(lines: Vec<String>, json_field: Option<String>) -> (r: Self)
        ensures
            r.wf(),
            r.pattern@.len() == 0,
            r.cursor == 0,
            r.lines@ == lines@,
            r.filtered@ == all_indices(lines@.len()),
            r.scroll == 0,
            r.json_field == json_field,
            r.error is None,
    {
        let filtered = all_lines(lines.len());
        let r = FilterApp { pattern: String::new(), cursor: 0, lines, filtered, scroll: 0, json_field, error: None };
        assert(r.pattern@.take(0) =~= Seq::<char>::empty());
        assert(cursor_at(r.pattern@, 0, 0));
        r
    }

    /// What the pattern is matched against in a line: with a JSON field
    /// chosen, the field's text when the line is JSON (empty when the field
    /// is missing); the line itself otherwise.
    pub fn extract_target(&self, line: &str) -> (r: String)
        ensures
            r@ == target_text(field_view(self.json_field), line@),
    {
        match &self.json_field {
            Some(field) => {
                match json_parse(line) {
                    Some(val) => {
                        return match json_field_text(&val, field.as_str()) {
                            Some(t) => t,
                            None => String::new(),
                        };
                    },
                    None => {},
                }
            },
            None => {},
        }
        string_from(line)
    }

    /// Keeps the lines that the pattern matches (in each, the text that
    /// `extract_target` picks): every line for an empty pattern; on a
    /// pattern that does not compile, the error and the lines kept before.
    pub fn update_filter(&mut self)
        requires
            old(self).wf(),
        ensures
            final(self).wf(),
            final(self).pattern == old(self).pattern,
            final(self).cursor == old(self).cursor,
            final(self).lines@ == old(self).lines@,
            final(self).json_field == old(self).json_field,
            refiltered(old(self).pattern@, *old(self), *final(self)),
    {
        if self.pattern.as_str().is_empty() {
            self.filtered = all_lines(self.lines.len());
            self.error = None;
            self.scroll = 0;
            return;
        }
        match regex_new(self.pattern.as_str()) {
            Ok(re) => {
                self.error = None;
                let mut kept: Vec<usize> = Vec::new();
                let mut i: usize = 0;
                while i < self.lines.len()
                    invariant
                        i <= self.lines@.len(),
                        re.pattern@ == self.pattern@,
                        forall|k: int| 0 <= k < kept@.len() ==> #[trigger] kept@[k] < i,
                        forall|a: int, b: int| 0 <= a < b < kept@.len() ==> kept@[a] < kept@[b],
                        kept@ == matching_lines(self.pattern@, field_view(self.json_field), self.lines@, i as int),
                    decreases self.lines@.len() - i,
                {
                    let target = self.extract_target(self.lines[i].as_str());
                    if regex_is_match(&re, target.as_str()) {
                        kept.push(i);
                    }
                    i += 1;
                }
                self.filtered = kept;
                self.scroll = 0;
            },
            Err(e) => {
                let mut msg = string_from("Regex error: ");
                push_str(&mut msg, e.as_str());
                self.error = Some(msg);
            },
        }
    }

    /// Types `c` at the cursor and filters again.
    pub fn insert_char(&mut self, c: char)
        requires
            old(self).wf(),
        ensures
            final(self).wf(),
            ({
                let k = char_index(old(self).pattern@, old(self).cursor);
                &&& final(self).pattern@ == old(self).pattern@.take(k).push(c) + old(self).pattern@.skip(k)
                &&& cursor_at(final(self).pattern@, final(self).cursor, k + 1)
            }),
            refiltered(final(self).pattern@, *old(self), *final(self)),
            final(self).lines@ == old(self).lines@,
            final(self).json_field == old(self).json_field,
    {
        let next = insert_at_cursor(&mut self.pattern, self.cursor, c);
        self.cursor = next;
        self.update_filter();
    }

    /// Deletes the character before the cursor and filters again; nothing
    /// at the start of the pattern.
    pub fn delete_char(&mut self)
        requires
            old(self).wf(),
        ensures
            final(self).wf(),
            old(self).cursor > 0 ==> ({
                let k = char_index(old(self).pattern@, old(self).cursor);
                &&& final(self).pattern@ == old(self).pattern@.take(k - 1) + old(self).pattern@.skip(k)
                &&& cursor_at(final(self).pattern@, final(self).cursor, k - 1)
                &&& refiltered(final(self).pattern@, *old(self), *final(self))
            }),
            old(self).cursor == 0 ==> final(self).pattern@ == old(self).pattern@ && final(self).cursor == 0
                && final(self).filtered@ == old(self).filtered@ && final(self).scroll == old(self).scroll
                && final(self).error == old(self).error,
            final(self).lines@ == old(self).lines@,
            final(self).json_field == old(self).json_field,
    {
        if self.cursor > 0 {
            let prev = delete_before_cursor(&mut self.pattern, self.cursor);
            self.cursor = prev;
            self.update_filter();
        }
    }

    /// Moves the cursor one character left (not past the start).
    pub fn move_left(&mut self)
        requires
            old(self).wf(),
        ensures
            final(self).wf(),
            final(self).pattern@ == old(self).pattern@,
            old(self).cursor > 0 ==> cursor_at(
                final(self).pattern@,
                final(self).cursor,
                char_index(old(self).pattern@, old(self).cursor) - 1,
            ),
            old(self).cursor == 0 ==> final(self).cursor == 0,
            unmoved_list(*old(self), *final(self)),
    {
        if self.cursor > 0 {
            let p = crate::app::prev_char_boundary(self.pattern.as_str(), self.cursor);
            proof {
                crate::app::lemma_prev_boundary(self.pattern@, self.cursor, p);
            }
            self.cursor = p;
        }
    }

    /// Moves the cursor one character right (not past the end).
    pub fn move_right(&mut self)
        requires
            old(self).wf(),
        ensures
            final(self).wf(),
            final(self).pattern@ == old(self).pattern@,
            old(self).cursor < encode_utf8(old(self).pattern@).len() ==> cursor_at(
                final(self).pattern@,
                final(self).cursor,
                char_index(old(self).pattern@, old(self).cursor) + 1,
            ),
            old(self).cursor >= encode_utf8(old(self).pattern@).len() ==> final(self).cursor == old(self).cursor,
            unmoved_list(*old(self), *final(self)),
    {
        let len = self.pattern.as_str().as_bytes().len();
        if self.cursor < len {
            let p = crate::app::next_char_boundary(self.pattern.as_str(), self.cursor);
            proof {
                crate::app::lemma_next_boundary(self.pattern@, self.cursor, p);
            }
            self.cursor = p;
        }
    }

    /// Scrolls one line down, not past the last kept line.
    pub fn scroll_down(&mut self)
        ensures
            final(self).scroll == (if old(self).scroll + 1 < old(self).filtered@.len() {
                old(self).scroll + 1
            } else {
                old(self).scroll as int
            }),
            final(self).filtered@ == old(self).filtered@,
            final(self).pattern == old(self).pattern,
            final(self).cursor == old(self).cursor,
            final(self).lines@ == old(self).lines@,
            final(self).json_field == old(self).json_field,
            final(self).error == old(self).error,
    {
        let max_scroll = self.filtered.len().saturating_sub(1);
        if self.scroll < max_scroll {
            self.scroll += 1;
        }
    }

    /// Scrolls one line up, not past the first.
    pub fn scroll_up(&mut self)
        ensures
            final(self).scroll == (if old(self).scroll > 0 { old(self).scroll - 1 } else { 0 }),
            final(self).filtered@ == old(self).filtered@,
            final(self).pattern == old(self).pattern,
            final(self).cursor == old(self).cursor,
            final(self).lines@ == old(self).lines@,
            final(self).json_field == old(self).json_field,
            final(self).error == old(self).error,
    {
        if self.scroll > 0 {
            self.scroll -= 1;
        }
    }

    /// The kept lines, in order, as written out when the user accepts.
    pub fn output_lines(&self) -> (r: Vec<String>)
        requires
            self.wf(),
        ensures
            r@.len() == self.filtered@.len(),
            forall|i: int| 0 <= i < r@.len() ==> (#[trigger] r@[i])@ == self.lines@[self.filtered@[i] as int]@,
    {
        let mut r: Vec<String> = Vec::new();
        let mut i: usize = 0;
        while i < self.filtered.len()
            invariant
                self.wf(),
                i <= self.filtered@.len(),
                r@.len() == i,
                forall|k: int| 0 <= k < i ==> (#[trigger] r@[k])@ == self.lines@[self.filtered@[k] as int]@,
            decreases self.filtered@.len() - i,
        {
            let idx = self.filtered[i];
            r.push(self.lines[idx].clone());
            i += 1;
        }
        r
    }
}


impl FilterApp {
    /// The status line's count: ` kept/all lines `.
    pub fn count_text(&self) -> (t: String)
        ensures
            t@ == " "@ + decimal(self.filtered@.len()) + "/"@ + decimal(self.lines@.len()) + " lines "@,
    {
        let mut t = string_from(" ");
        push_decimal(&mut t, self.filtered.len());
        push_str(&mut t, "/");
        push_decimal(&mut t, self.lines.len());
        push_str(&mut t, " lines ");
        t
    }

    /// The kept lines shown in a list `height` lines high: from the scroll
    /// position on, at most `height` of them.
    pub fn visible_lines(&self, height: usize) -> (r: Vec<String>)
        requires
            self.wf(),
        ensures
            r@.len() == (if self.scroll >= self.filtered@.len() {
                0
            } else if self.filtered@.len() - self.scroll < height {
                self.filtered@.len() - self.scroll
            } else {
                height as int
            }),
            forall|i: int| 0 <= i < r@.len() ==> (#[trigger] r@[i])@ == self.lines@[self.filtered@[self.scroll + i] as int]@,
    {
        let mut r: Vec<String> = Vec::new();
        let mut i: usize = self.scroll;
        let n = self.filtered.len();
        if i >= n {
            return r;
        }
        let stop = if n - i < height { n } else { i + height };
        while i < stop
            invariant
                self.wf(),
                n == self.filtered@.len(),
                self.scroll <= i <= stop <= n,
                r@.len() == i - self.scroll,
                forall|k: int| 0 <= k < r@.len() ==> (#[trigger] r@[k])@ == self.lines@[self.filtered@[self.scroll + k] as int]@,
            decreases stop - i,
        {
            let idx = self.filtered[i];
            r.push(self.lines[idx].clone());
            i += 1;
        }
        r
    }
}


/// A line is kept exactly when the pattern matches its target (the line,
/// or its chosen JSON field): the indexes below `n` that `matching_lines`
/// lists are those of the lines so matched, in increasing order.
pub proof fn law_kept_iff_matched(
    pattern: Seq<char>,
    field: Option<Seq<char>>,
    lines: Seq<String>,
    n: int,
    k: usize,
)
    requires
        0 <= n <= lines.len(),
        lines.len() <= usize::MAX,
    ensures
        matching_lines(pattern, field, lines, n).contains(k) <==> k < n && line_is_match(
            pattern,
            target_text(field, lines[k as int]@),
        ),
        increasing_indices(matching_lines(pattern, field, lines, n), n as nat),
    decreases n,
{
    if n > 0 {
        law_kept_iff_matched(pattern, field, lines, n - 1, k);
        let before = matching_lines(pattern, field, lines, n - 1);
        if line_is_match(pattern, target_text(field, lines[n - 1]@)) {
            let last = (n - 1) as usize;
            let after = before.push(last);
            if after.contains(k) {
                let j = choose|j: int| 0 <= j < after.len() && after[j] == k;
                if j < before.len() {
                    assert(before[j] == k);
                    assert(before.contains(k));
                }
            }
            if k == last {
                assert(after[before.len() as int] == k);
            } else if before.contains(k) {
                let j = choose|j: int| 0 <= j < before.len() && before[j] == k;
                assert(after[j] == k);
            }
            assert forall|a: int, b: int| 0 <= a < b < after.len() implies after[a] < after[b] by {
                assert(after[a] == before[a]);
                if b == before.len() {
                    assert(before[a] < n - 1);
                } else {
                    assert(after[b] == before[b]);
                }
            }
        }
    }
}

} // verus!
