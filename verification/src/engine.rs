//! The three regex engines behind one interface, the flags they share, and
//! the choice between them (picked from the pattern's features unless the
//! user has chosen by hand).

use vstd::prelude::*;
use vstd::utf8::{decode_utf8, encode_utf8, is_char_boundary, valid_utf8};
use crate::text::{lemma_between_boundaries, lemma_contains_concat, push_char, push_str};

verus! {

// ===== Engines and flags =====

/// The engines, from the least to the most capable.
#[derive(Debug, Clone, Copy, PartialEq, Eq, Structural, PartialOrd, Ord)]
pub enum EngineLevel {
    Basic,
    Fancy,
    Pcre2,
}

/// The engine after `e` in the cycle Basic, Fancy, PCRE2, Basic, ...
pub open spec fn next_level(e: EngineLevel) -> EngineLevel {
    match e {
        EngineLevel::Basic => EngineLevel::Fancy,
        EngineLevel::Fancy => EngineLevel::Pcre2,
        EngineLevel::Pcre2 => EngineLevel::Basic,
    }
}

/// The name under which an engine is shown.
pub open spec fn level_label(e: EngineLevel) -> Seq<char> {
    match e {
        EngineLevel::Basic => "regex"@,
        EngineLevel::Fancy => "fancy-regex"@,
        EngineLevel::Pcre2 => "PCRE2"@,
    }
}

impl EngineLevel {
    /// The next engine in the cycle.
    pub fn next(self) -> (r: Self)
        ensures
            r == next_level(self),
    {
        match self {
            EngineLevel::Basic => EngineLevel::Fancy,
            EngineLevel::Fancy => EngineLevel::Pcre2,
            EngineLevel::Pcre2 => EngineLevel::Basic,
        }
    }

    /// The name under which the engine is shown: `regex`, `fancy-regex` or
    /// `PCRE2`.
    pub fn label(&self) -> (s: &'static str)
        ensures
            s@ == level_label(*self),
    {
        match self {
            EngineLevel::Basic => "regex",
            EngineLevel::Fancy => "fancy-regex",
            EngineLevel::Pcre2 => "PCRE2",
        }
    }
}

/// The matching options that the user can switch.
#[derive(Debug, Clone, Copy)]
pub struct RegexFlags {
    pub case_insensitive: bool,
    pub multiline: bool,
    pub dot_matches_newline: bool,
    pub unicode: bool,
    pub extended: bool,
}

/// Every option off but Unicode.
pub open spec fn default_flags() -> RegexFlags {
    RegexFlags {
        case_insensitive: false,
        multiline: false,
        dot_matches_newline: false,
        unicode: true,
        extended: false,
    }
}

impl Default for RegexFlags {
    /// Every option off but Unicode.
    fn default() -> (r: Self)
        ensures
            r == default_flags(),
    {
        RegexFlags {
            case_insensitive: false,
            multiline: false,
            dot_matches_newline: false,
            unicode: true,
            extended: false,
        }
    }
}

/// `c` when `b` holds, nothing otherwise.
pub open spec fn letter_if(b: bool, c: char) -> Seq<char> {
    if b { seq![c] } else { Seq::empty() }
}

/// The letters of the switched-on options, in the order `imsux`.
pub open spec fn flag_letters(f: RegexFlags) -> Seq<char> {
    letter_if(f.case_insensitive, 'i') + letter_if(f.multiline, 'm') + letter_if(
        f.dot_matches_newline,
        's',
    ) + letter_if(f.unicode, 'u') + letter_if(f.extended, 'x')
}

/// Whether any option is on.
pub open spec fn any_flag(f: RegexFlags) -> bool {
    f.case_insensitive || f.multiline || f.dot_matches_newline || f.unicode || f.extended
}

/// The inline-flag group `(?imsux)` of the switched-on options; empty when
/// none is on.
pub open spec fn inline_prefix(f: RegexFlags) -> Seq<char> {
    if any_flag(f) { "(?"@ + flag_letters(f) + ")"@ } else { Seq::empty() }
}

fn push_letter_if(s: &mut String, b: bool, c: char)
    ensures
        final(s)@ == old(s)@ + letter_if(b, c),
{
    if b {
        push_char(s, c);
    }
    assert(s@ =~= old(s)@ + letter_if(b, c));
}

fn push_flag_letters(s: &mut String, f: &RegexFlags)
    ensures
        final(s)@ == old(s)@ + flag_letters(*f),
{
    push_letter_if(s, f.case_insensitive, 'i');
    push_letter_if(s, f.multiline, 'm');
    push_letter_if(s, f.dot_matches_newline, 's');
    push_letter_if(s, f.unicode, 'u');
    push_letter_if(s, f.extended, 'x');
    assert(s@ =~= old(s)@ + flag_letters(*f));
}

impl RegexFlags {
    /// The inline-flag group that turns these options on, such as `(?iu)`;
    /// empty when every option is off.
    pub fn as_prefix(&self) -> (s: String)
        ensures
            s@ == inline_prefix(*self),
    {
        let mut s = String::new();
        if self.case_insensitive || self.multiline || self.dot_matches_newline || self.unicode
            || self.extended {
            push_str(&mut s, "(?");
            push_flag_letters(&mut s, self);
            push_str(&mut s, ")");
        }
        assert(s@ =~= inline_prefix(*self));
        s
    }
}

/// The pattern handed to the fancy-regex engine: the options as an inline
/// group before the pattern, or the pattern alone when none is on.
pub fn build_pattern(pattern: &str, flags: &RegexFlags) -> (s: String)
    ensures
        s@ == inline_prefix(*flags) + pattern@,
{
    let mut s = flags.as_prefix();
    push_str(&mut s, pattern);
    s
}


// ===== Matches =====

/// A match of the whole pattern or of one group: its byte range in the
/// text and the text it covers.
#[derive(Debug, Clone)]
pub struct MatchSpan {
    pub start: usize,
    pub end: usize,
    pub text: String,
}

/// Every match of a pattern in a text, first to last, and for each the
/// matches of groups 1, 2, ... (none where a group took no part).
#[derive(Debug, Clone)]
pub struct MatchResult {
    pub full_matches: Vec<MatchSpan>,
    pub group_matches: Vec<Vec<Option<MatchSpan>>>,
}

/// The length in bytes of a text.
pub open spec fn byte_len(text: Seq<char>) -> nat {
    encode_utf8(text).len()
}

/// A byte range within a text of `len` bytes.
pub open spec fn span_within(sp: MatchSpan, len: nat) -> bool {
    sp.start <= sp.end && sp.end <= len
}

/// An optional span that, where present, lies within `len` bytes.
pub open spec fn opt_within(o: Option<MatchSpan>, len: nat) -> bool {
    match o {
        Some(sp) => span_within(sp, len),
        None => true,
    }
}

/// What every engine's result satisfies on a text of `len` bytes: one list
/// of group matches per match, every range within the text, and the
/// matches in order without overlap.
pub open spec fn well_formed_result(m: MatchResult, len: nat) -> bool {
    let full = m.full_matches@;
    let groups = m.group_matches@;
    &&& full.len() == groups.len()
    &&& forall|i: int| 0 <= i < full.len() ==> span_within(#[trigger] full[i], len)
    &&& forall|i: int, j: int|
        0 <= i < groups.len() && 0 <= j < groups[i]@.len() ==> opt_within(#[trigger] groups[i]@[j], len)
    &&& forall|i: int| 0 <= i < full.len() - 1 ==> #[trigger] full[i].end <= full[i + 1].start
}

/// Every match covers at least one byte.
pub open spec fn no_empty_matches(m: MatchResult) -> bool {
    forall|i: int| 0 <= i < m.full_matches@.len() ==> #[trigger] m.full_matches@[i].start < m.full_matches@[i].end
}

/// An engine: finds every match of a pattern in a text, or says why the
/// pattern is refused.
pub trait RegexEngine: Send {
    /// Which engine this is.
    fn name(&self) -> EngineLevel;

    /// Every match of `pattern` in `text` under `flags`; the error text when
    /// the engine refuses the pattern or fails while matching.
    fn find_matches(&self, pattern: &str, text: &str, flags: &RegexFlags) -> (r: Result<MatchResult, String>)
        ensures
            r matches Ok(m) ==> well_formed_result(m, byte_len(text@)),
    ;
}

// ===== Matches as byte ranges =====

/// The first offset of a byte range.
pub open spec fn lo_of(p: (usize, usize)) -> usize {
    p.0
}

/// The second offset of a byte range.
pub open spec fn hi_of(p: (usize, usize)) -> usize {
    p.1
}

/// Whether every range of a list of groups is ordered and lies within
/// `len` bytes.
pub open spec fn pairs_within(v: Seq<Option<(usize, usize)>>, len: int) -> bool {
    forall|j: int|
        0 <= j < v.len() && #[trigger] v[j] is Some ==> lo_of(v[j]->0) <= hi_of(v[j]->0) && hi_of(v[j]->0) <= len
}

/// One match as the crates report it on a subject of `len` bytes: the
/// range of each group, group 0 (the whole match) present, every range
/// within the subject.
pub open spec fn capture_ok(c: Seq<Option<(usize, usize)>>, len: int) -> bool {
    &&& c.len() >= 1
    &&& c[0] is Some
    &&& pairs_within(c, len)
}

/// A list of captures as values.
pub open spec fn vecs_view(v: Seq<Vec<Option<(usize, usize)>>>) -> Seq<Seq<Option<(usize, usize)>>> {
    v.map_values(|c: Vec<Option<(usize, usize)>>| c@)
}

/// The outcome of one search as values: the first match, none, or the
/// error's message.
pub open spec fn search_view(r: Result<Option<Vec<Option<(usize, usize)>>>, String>) -> Result<
    Option<Seq<Option<(usize, usize)>>>,
    Seq<char>,
> {
    match r {
        Ok(Some(v)) => Ok(Some(v@)),
        Ok(None) => Ok(None),
        Err(e) => Err(e@),
    }
}

/// The ranges of a capture moved `base` bytes on.
pub open spec fn shifted(c: Seq<Option<(usize, usize)>>, base: int) -> Seq<Option<(usize, usize)>> {
    c.map_values(
        |o: Option<(usize, usize)>|
            match o {
                Some(p) => Some(((p.0 + base) as usize, (p.1 + base) as usize)),
                None => None,
            },
    )
}

/// The byte range of a span.
pub open spec fn range_of(s: MatchSpan) -> (usize, usize) {
    (s.start, s.end)
}

/// The byte range of an optional span.
pub open spec fn opt_range(o: Option<MatchSpan>) -> Option<(usize, usize)> {
    match o {
        Some(s) => Some(range_of(s)),
        None => None,
    }
}

/// One match of a result as the crates report it: its range, then those
/// of groups 1, 2, ...
pub open spec fn capture_of(m: MatchSpan, g: Vec<Option<MatchSpan>>) -> Seq<Option<(usize, usize)>> {
    seq![Some(range_of(m))] + g@.map_values(|o: Option<MatchSpan>| opt_range(o))
}

/// The matches of a result as the crates report them.
pub open spec fn captures_view(full: Seq<MatchSpan>, groups: Seq<Vec<Option<MatchSpan>>>) -> Seq<
    Seq<Option<(usize, usize)>>,
> {
    Seq::new(full.len(), |i: int| capture_of(full[i], groups[i]))
}

/// The matches of a result, as ranges.
pub open spec fn result_captures(m: MatchResult) -> Seq<Seq<Option<(usize, usize)>>> {
    captures_view(m.full_matches@, m.group_matches@)
}

/// A span holds the text of its byte range: its lossy decoding, which is
/// the plain decoding where the range holds valid UTF-8.
pub open spec fn span_read(s: MatchSpan, bytes: Seq<u8>) -> bool {
    let sub = bytes.subrange(s.start as int, s.end as int);
    &&& s.text@ == utf8_lossy(sub)
    &&& valid_utf8(sub) ==> s.text@ == decode_utf8(sub)
}

/// A span covers whole characters of the text, and holds exactly the
/// characters of its byte range.
pub open spec fn span_is_slice(s: MatchSpan, bytes: Seq<u8>) -> bool {
    let sub = bytes.subrange(s.start as int, s.end as int);
    &&& valid_utf8(sub)
    &&& s.text@ == decode_utf8(sub)
}

/// An optional span, where present, is a slice of the text.
pub open spec fn opt_is_slice(o: Option<MatchSpan>, bytes: Seq<u8>) -> bool {
    match o {
        Some(s) => span_is_slice(s, bytes),
        None => true,
    }
}

/// Every span of a result is a slice of the text.
pub open spec fn all_slices(full: Seq<MatchSpan>, groups: Seq<Vec<Option<MatchSpan>>>, bytes: Seq<u8>) -> bool {
    &&& forall|i: int| 0 <= i < full.len() ==> span_is_slice(#[trigger] full[i], bytes)
    &&& forall|i: int, j: int|
        0 <= i < groups.len() && 0 <= j < groups[i]@.len() ==> opt_is_slice(#[trigger] groups[i]@[j], bytes)
}

/// Every match of a result has `n` groups besides the whole match.
pub open spec fn groups_counted(groups: Seq<Vec<Option<MatchSpan>>>, n: int) -> bool {
    forall|i: int| 0 <= i < groups.len() ==> (#[trigger] groups[i])@.len() == n
}

/// Every range of a capture starts and ends on a character boundary.
pub open spec fn on_boundaries(c: Seq<Option<(usize, usize)>>, bytes: Seq<u8>) -> bool {
    forall|j: int|
        0 <= j < c.len() && #[trigger] c[j] is Some ==> is_char_boundary(bytes, lo_of(c[j]->0) as int)
            && is_char_boundary(bytes, hi_of(c[j]->0) as int)
}

/// An optional span, where present, holds the text of its byte range.
pub open spec fn opt_read(o: Option<MatchSpan>, bytes: Seq<u8>) -> bool {
    match o {
        Some(s) => span_read(s, bytes),
        None => true,
    }
}

/// Every span of a result holds the text of its byte range.
pub open spec fn texts_read(full: Seq<MatchSpan>, groups: Seq<Vec<Option<MatchSpan>>>, bytes: Seq<u8>) -> bool {
    &&& forall|i: int| 0 <= i < full.len() ==> span_read(#[trigger] full[i], bytes)
    &&& forall|i: int, j: int|
        0 <= i < groups.len() && 0 <= j < groups[i]@.len() ==> opt_read(#[trigger] groups[i]@[j], bytes)
}

/// A result agrees with an outcome: the same matches, each span with its
/// text; or the same error message.
pub open spec fn reports(
    r: Result<MatchResult, String>,
    o: Result<Seq<Seq<Option<(usize, usize)>>>, Seq<char>>,
    text: Seq<char>,
) -> bool {
    match r {
        Ok(m) => o matches Ok(c) && result_captures(m) == c && texts_read(
            m.full_matches@,
            m.group_matches@,
            encode_utf8(text),
        ),
        Err(e) => o matches Err(x) && e@ == x,
    }
}

/// The matches collected so far followed by those of the rest; an error
/// of the rest is the error of the whole.
pub open spec fn then_rest(
    done: Seq<Seq<Option<(usize, usize)>>>,
    rest: Result<Seq<Seq<Option<(usize, usize)>>>, Seq<char>>,
) -> Result<Seq<Seq<Option<(usize, usize)>>>, Seq<char>> {
    match rest {
        Ok(more) => Ok(done + more),
        Err(e) => Err(e),
    }
}

proof fn lemma_then_rest_assoc(
    a: Seq<Seq<Option<(usize, usize)>>>,
    b: Seq<Seq<Option<(usize, usize)>>>,
    rest: Result<Seq<Seq<Option<(usize, usize)>>>, Seq<char>>,
)
    ensures
        then_rest(a, then_rest(b, rest)) == then_rest(a + b, rest),
{
    match rest {
        Ok(more) => {
            assert(a + (b + more) =~= (a + b) + more);
        },
        Err(_) => {},
    }
}

proof fn lemma_shifted_zero(c: Seq<Option<(usize, usize)>>)
    ensures
        shifted(c, 0) == c,
{
    assert forall|j: int| 0 <= j < c.len() implies #[trigger] shifted(c, 0)[j] == c[j] by {
        match c[j] {
            Some(p) => {
                assert(((p.0 + 0) as usize, (p.1 + 0) as usize) == p);
            },
            None => {},
        }
    }
    assert(shifted(c, 0) =~= c);
}

proof fn lemma_captures_push(
    full: Seq<MatchSpan>,
    groups: Seq<Vec<Option<MatchSpan>>>,
    m: MatchSpan,
    g: Vec<Option<MatchSpan>>,
)
    requires
        full.len() == groups.len(),
    ensures
        captures_view(full.push(m), groups.push(g)) == captures_view(full, groups).push(capture_of(m, g)),
{
    let a = captures_view(full.push(m), groups.push(g));
    let b = captures_view(full, groups).push(capture_of(m, g));
    assert forall|i: int| 0 <= i < a.len() implies a[i] == b[i] by {
        if i < full.len() {
            assert(full.push(m)[i] == full[i]);
            assert(groups.push(g)[i] == groups[i]);
        }
    }
    assert(a =~= b);
}

proof fn lemma_texts_push(
    full: Seq<MatchSpan>,
    groups: Seq<Vec<Option<MatchSpan>>>,
    m: MatchSpan,
    g: Vec<Option<MatchSpan>>,
    bytes: Seq<u8>,
)
    requires
        texts_read(full, groups, bytes),
        span_read(m, bytes),
        forall|j: int| 0 <= j < g@.len() ==> opt_read(#[trigger] g@[j], bytes),
    ensures
        texts_read(full.push(m), groups.push(g), bytes),
{
    let f2 = full.push(m);
    let g2 = groups.push(g);
    assert forall|i: int| 0 <= i < f2.len() implies span_read(#[trigger] f2[i], bytes) by {
        if i < full.len() {
            assert(f2[i] == full[i]);
        }
    }
    assert forall|i: int, j: int| 0 <= i < g2.len() && 0 <= j < g2[i]@.len() implies opt_read(
        #[trigger] g2[i]@[j],
        bytes,
    ) by {
        if i < groups.len() {
            assert(g2[i] == groups[i]);
        }
    }
}

/// What `String::from_utf8_lossy` makes of a sequence of bytes.
pub uninterp spec fn utf8_lossy(bytes: Seq<u8>) -> Seq<char>;

/// `String::from_utf8_lossy` on `bytes[start..end]`, as a `String`. The
/// standard library documents that valid UTF-8 comes out as the characters
/// it encodes; what it makes of invalid sequences is left to the name.
#[verifier::external_body]
pub(crate) fn lossy_text(bytes: &[u8], start: usize, end: usize) -> (s: String)
    requires
        start <= end <= bytes@.len(),
    ensures
        s@ == utf8_lossy(bytes@.subrange(start as int, end as int)),
        valid_utf8(bytes@.subrange(start as int, end as int)) ==> s@ == decode_utf8(
            bytes@.subrange(start as int, end as int),
        ),
{
    String::from_utf8_lossy(&bytes[start..end]).to_string()
}

/// One match found in the subject `bytes[base..]`: the whole match and
/// groups 1, 2, ..., moved to offsets in `bytes`, each with its text.
fn read_capture(bytes: &[u8], base: usize, caps: &Vec<Option<(usize, usize)>>) -> (r: (
    MatchSpan,
    Vec<Option<MatchSpan>>,
))
    requires
        base <= bytes@.len(),
        capture_ok(caps@, bytes@.len() - base),
    ensures
        capture_of(r.0, r.1) == shifted(caps@, base as int),
        span_within(r.0, bytes@.len()),
        groups_within(r.1@, bytes@.len()),
        span_read(r.0, bytes@),
        forall|j: int| 0 <= j < r.1@.len() ==> opt_read(#[trigger] r.1@[j], bytes@),
{
    let n = bytes.len();
    let (s0, e0) = match caps[0] {
        Some(p) => p,
        None => (0, 0),
    };
    assert(caps@[0] is Some && caps@[0]->0 == (s0, e0));
    assert(s0 <= e0 && e0 <= n - base);
    let m = MatchSpan { start: base + s0, end: base + e0, text: lossy_text(bytes, base + s0, base + e0) };
    let mut r: Vec<Option<MatchSpan>> = Vec::new();
    let mut i: usize = 1;
    while i < caps.len()
        invariant
            n == bytes@.len(),
            1 <= i <= caps@.len(),
            r@.len() == i - 1,
            base <= bytes@.len(),
            capture_ok(caps@, bytes@.len() - base),
            groups_within(r@, bytes@.len() as nat),
            forall|j: int| 0 <= j < r@.len() ==> opt_read(#[trigger] r@[j], bytes@),
            forall|j: int| 0 <= j < r@.len() ==> #[trigger] opt_range(r@[j]) == shifted(caps@, base as int)[j + 1],
        decreases caps@.len() - i,
    {
        let g = match caps[i] {
            Some((s, e)) => {
                assert(caps@[i as int] is Some);
                assert(caps@[i as int]->0 == (s, e));
                assert(s <= e && e <= bytes@.len() - base);
                let t = lossy_text(bytes, base + s, base + e);
                Some(MatchSpan { start: base + s, end: base + e, text: t })
            },
            None => None,
        };
        r.push(g);
        i += 1;
    }
    proof {
        let c = capture_of(m, r);
        let sh = shifted(caps@, base as int);
        assert forall|j: int| 0 <= j < c.len() implies c[j] == sh[j] by {
            if j > 0 {
                assert(c[j] == opt_range(r@[j - 1]));
            }
        }
        assert(c =~= sh);
    }
    (m, r)
}

/// Whether every group of a list lies within `len` bytes.
pub open spec fn groups_within(g: Seq<Option<MatchSpan>>, len: nat) -> bool {
    forall|j: int| 0 <= j < g.len() ==> opt_within(#[trigger] g[j], len)
}

/// The parts of a result built so far: one list of groups per match,
/// every range within `len` bytes, the matches in order, and the last one
/// ending at or before `pos`.
pub open spec fn partial_result(full: Seq<MatchSpan>, groups: Seq<Vec<Option<MatchSpan>>>, len: nat, pos: int) -> bool {
    &&& full.len() == groups.len()
    &&& forall|i: int| 0 <= i < full.len() ==> span_within(#[trigger] full[i], len)
    &&& forall|i: int| 0 <= i < groups.len() ==> groups_within((#[trigger] groups[i])@, len)
    &&& forall|i: int| 0 <= i < full.len() - 1 ==> #[trigger] full[i].end <= full[i + 1].start
    &&& full.len() > 0 ==> full.last().end <= pos
}

proof fn lemma_partial_result_done(m: MatchResult, len: nat, pos: int)
    requires
        partial_result(m.full_matches@, m.group_matches@, len, pos),
    ensures
        well_formed_result(m, len),
{
    let groups = m.group_matches@;
    assert forall|i: int, j: int| 0 <= i < groups.len() && 0 <= j < groups[i]@.len() implies opt_within(
        #[trigger] groups[i]@[j],
        len,
    ) by {
        assert(groups_within(groups[i]@, len));
    }
}

proof fn lemma_partial_result_push(
    full: Seq<MatchSpan>,
    groups: Seq<Vec<Option<MatchSpan>>>,
    len: nat,
    pos: int,
    m: MatchSpan,
    g: Vec<Option<MatchSpan>>,
)
    requires
        partial_result(full, groups, len, pos),
        pos <= m.start <= m.end <= len,
        groups_within(g@, len),
    ensures
        partial_result(full.push(m), groups.push(g), len, m.end as int),
{
    let f2 = full.push(m);
    let g2 = groups.push(g);
    assert forall|i: int| 0 <= i < f2.len() - 1 implies #[trigger] f2[i].end <= f2[i + 1].start by {
        if i < full.len() - 1 {
            assert(f2[i] == full[i] && f2[i + 1] == full[i + 1]);
        } else {
            assert(f2[i] == full.last());
        }
    }
    assert forall|i: int| 0 <= i < g2.len() implies groups_within((#[trigger] g2[i])@, len) by {
        if i < groups.len() {
            assert(g2[i] == groups[i]);
        }
    }
}

/// Every match of a list covers at least one byte.
pub open spec fn all_nonempty(full: Seq<MatchSpan>) -> bool {
    forall|i: int| 0 <= i < full.len() ==> #[trigger] full[i].start < full[i].end
}

/// The state of a result being collected: well formed so far, and every
/// span holding its text.
pub open spec fn collecting(
    full: Seq<MatchSpan>,
    groups: Seq<Vec<Option<MatchSpan>>>,
    bytes: Seq<u8>,
    pos: int,
) -> bool {
    &&& partial_result(full, groups, bytes.len(), pos)
    &&& texts_read(full, groups, bytes)
}

proof fn lemma_collect_push(
    full: Seq<MatchSpan>,
    groups: Seq<Vec<Option<MatchSpan>>>,
    bytes: Seq<u8>,
    pos: int,
    m: MatchSpan,
    g: Vec<Option<MatchSpan>>,
)
    requires
        collecting(full, groups, bytes, pos),
        pos <= m.start <= m.end <= bytes.len(),
        groups_within(g@, bytes.len()),
        span_read(m, bytes),
        forall|j: int| 0 <= j < g@.len() ==> opt_read(#[trigger] g@[j], bytes),
    ensures
        collecting(full.push(m), groups.push(g), bytes, m.end as int),
        captures_view(full.push(m), groups.push(g)) == captures_view(full, groups).push(capture_of(m, g)),
{
    lemma_partial_result_push(full, groups, bytes.len(), pos, m, g);
    lemma_texts_push(full, groups, m, g, bytes);
    lemma_captures_push(full, groups, m, g);
}

/// A match read from a capture whose ranges start and end on character
/// boundaries of the text is a slice of the text, and so are its groups.
proof fn lemma_capture_slices(m: MatchSpan, g: Vec<Option<MatchSpan>>, bytes: Seq<u8>, text: Seq<char>)
    requires
        bytes == encode_utf8(text),
        on_boundaries(capture_of(m, g), bytes),
        span_within(m, bytes.len()),
        groups_within(g@, bytes.len()),
        span_read(m, bytes),
        forall|j: int| 0 <= j < g@.len() ==> opt_read(#[trigger] g@[j], bytes),
    ensures
        span_is_slice(m, bytes),
        forall|j: int| 0 <= j < g@.len() ==> opt_is_slice(#[trigger] g@[j], bytes),
{
    let c = capture_of(m, g);
    assert(c[0] == Some(range_of(m)));
    assert(c[0] is Some);
    lemma_between_boundaries(text, m.start as int, m.end as int);
    assert forall|j: int| 0 <= j < g@.len() implies opt_is_slice(#[trigger] g@[j], bytes) by {
        assert(c[j + 1] == opt_range(g@[j]));
        assert(opt_within(g@[j], bytes.len()));
        match g@[j] {
            Some(sp) => {
                assert(c[j + 1] is Some);
                lemma_between_boundaries(text, sp.start as int, sp.end as int);
            },
            None => {},
        }
    }
}

proof fn lemma_slices_push(
    full: Seq<MatchSpan>,
    groups: Seq<Vec<Option<MatchSpan>>>,
    m: MatchSpan,
    g: Vec<Option<MatchSpan>>,
    bytes: Seq<u8>,
)
    requires
        all_slices(full, groups, bytes),
        span_is_slice(m, bytes),
        forall|j: int| 0 <= j < g@.len() ==> opt_is_slice(#[trigger] g@[j], bytes),
    ensures
        all_slices(full.push(m), groups.push(g), bytes),
{
    let f2 = full.push(m);
    let g2 = groups.push(g);
    assert forall|i: int| 0 <= i < f2.len() implies span_is_slice(#[trigger] f2[i], bytes) by {
        if i < full.len() {
            assert(f2[i] == full[i]);
        }
    }
    assert forall|i: int, j: int| 0 <= i < g2.len() && 0 <= j < g2[i]@.len() implies opt_is_slice(
        #[trigger] g2[i]@[j],
        bytes,
    ) by {
        if i < groups.len() {
            assert(g2[i] == groups[i]);
        }
    }
}

proof fn lemma_counted_push(groups: Seq<Vec<Option<MatchSpan>>>, g: Vec<Option<MatchSpan>>, n: int)
    requires
        groups_counted(groups, n),
        g@.len() == n,
    ensures
        groups_counted(groups.push(g), n),
{
    assert forall|i: int| 0 <= i < groups.push(g).len() implies (#[trigger] groups.push(g)[i])@.len() == n by {
        if i < groups.len() {
            assert(groups.push(g)[i] == groups[i]);
        }
    }
}


// ===== The `regex` crate =====

#[verifier::external_type_specification]
#[verifier::external_body]
pub struct ExBasicRegex(regex::Regex);

/// The message of the error that `regex::RegexBuilder::build` gives for a
/// pattern under the options (set one for one), or none when it compiles
/// the pattern.
pub uninterp spec fn basic_compile_error(pattern: Seq<char>, flags: RegexFlags) -> Option<Seq<char>>;

/// What `regex::Regex::captures_iter` yields for a pattern compiled under
/// the options, on a text: per match, the byte range of each group.
pub uninterp spec fn basic_captures(pattern: Seq<char>, flags: RegexFlags, text: Seq<char>) -> Seq<
    Seq<Option<(usize, usize)>>,
>;

/// What `regex::Regex::captures_len` gives for a pattern compiled under
/// the options: the number of its groups, the whole match included.
pub uninterp spec fn basic_group_count(pattern: Seq<char>, flags: RegexFlags) -> nat;

/// A pattern compiled by the `regex` crate, with the pattern and the
/// options it was compiled from. Only `basic_build` makes one.
pub struct BasicRegex {
    re: regex::Regex,
    pattern: String,
    flags: RegexFlags,
}

/// Builds a `regex::Regex` with `regex::RegexBuilder`, the options set one
/// for one; the error as its message (its `Display` text). The contract
/// claims that the outcome is the crate's, a function of the pattern and
/// the options.
#[verifier::external_body]
fn basic_build(pattern: &str, flags: &RegexFlags) -> (r: Result<BasicRegex, String>)
    ensures
        match basic_compile_error(pattern@, *flags) {
            None => r matches Ok(b) && b.pattern@ == pattern@ && b.flags == *flags,
            Some(msg) => r matches Err(e) && e@ == msg,
        },
{
    let built = regex::RegexBuilder::new(pattern)
        .case_insensitive(flags.case_insensitive)
        .multi_line(flags.multiline)
        .dot_matches_new_line(flags.dot_matches_newline)
        .unicode(flags.unicode)
        .ignore_whitespace(flags.extended)
        .build();
    match built {
        Ok(re) => Ok(BasicRegex { re, pattern: pattern.to_string(), flags: *flags }),
        Err(e) => Err(e.to_string()),
    }
}

/// `regex::Regex::captures_iter` on a text, each match as the byte ranges
/// of its groups (`Captures::get` for every index below `Captures::len`).
/// The crate documents that group 0, the whole match, is always present,
/// that offsets are into the text and fall on character boundaries, that
/// every match has as many groups as `Regex::captures_len` counts, and
/// that the matches are successive and do not overlap.
#[verifier::external_body]
fn basic_all_captures(b: &BasicRegex, text: &str) -> (v: Vec<Vec<Option<(usize, usize)>>>)
    ensures
        vecs_view(v@) == basic_captures(b.pattern@, b.flags, text@),
        forall|i: int| 0 <= i < v@.len() ==> capture_ok((#[trigger] v@[i])@, byte_len(text@) as int),
        forall|i: int| 0 <= i < v@.len() ==> on_boundaries((#[trigger] v@[i])@, encode_utf8(text@)),
        forall|i: int| 0 <= i < v@.len() ==> (#[trigger] v@[i])@.len() == basic_group_count(b.pattern@, b.flags),
        forall|i: int| 0 <= i < v@.len() - 1 ==> hi_of((#[trigger] v@[i])@[0]->0) <= lo_of(v@[i + 1]@[0]->0),
{
    b.re.captures_iter(text).map(|c| (0..c.len()).map(|i| c.get(i).map(|m| (m.start(), m.end()))).collect()).collect()
}

/// What the basic engine reports: the compile error, or every match that
/// the crate yields.
pub open spec fn basic_outcome(pattern: Seq<char>, flags: RegexFlags, text: Seq<char>) -> Result<
    Seq<Seq<Option<(usize, usize)>>>,
    Seq<char>,
> {
    match basic_compile_error(pattern, flags) {
        Some(e) => Err(e),
        None => Ok(basic_captures(pattern, flags, text)),
    }
}

/// The engine of the `regex` crate: no look-around or back-references.
pub struct BasicEngine;

impl RegexEngine for BasicEngine {
    fn name(&self) -> (r: EngineLevel)
        ensures
            r == EngineLevel::Basic,
    {
        EngineLevel::Basic
    }

    fn find_matches(&self, pattern: &str, text: &str, flags: &RegexFlags) -> (r: Result<MatchResult, String>)
        ensures
            reports(r, basic_outcome(pattern@, *flags, text@), text@),
            r matches Ok(m) ==> all_slices(m.full_matches@, m.group_matches@, encode_utf8(text@)),
            r matches Ok(m) ==> groups_counted(m.group_matches@, basic_group_count(pattern@, *flags) - 1),
    {
        let b = match basic_build(pattern, flags) {
            Ok(b) => b,
            Err(e) => {
                return Err(e);
            },
        };
        let all = basic_all_captures(&b, text);
        let bytes = text.as_bytes();
        let ghost want = vecs_view(all@);
        let ghost mut pos: int = 0;
        let mut full_matches: Vec<MatchSpan> = Vec::new();
        let mut group_matches: Vec<Vec<Option<MatchSpan>>> = Vec::new();
        let mut i: usize = 0;
        assert(captures_view(full_matches@, group_matches@) =~= want.take(0));
        while i < all.len()
            invariant
                i <= all@.len(),
                bytes@ == encode_utf8(text@),
                want == vecs_view(all@),
                forall|k: int| 0 <= k < all@.len() ==> capture_ok((#[trigger] all@[k])@, bytes@.len() as int),
                forall|k: int| 0 <= k < all@.len() - 1 ==> hi_of((#[trigger] all@[k])@[0]->0) <= lo_of(
                    all@[k + 1]@[0]->0,
                ),
                i > 0 ==> pos == hi_of(all@[i - 1]@[0]->0),
                i == 0 ==> pos == 0,
                collecting(full_matches@, group_matches@, bytes@, pos),
                captures_view(full_matches@, group_matches@) == want.take(i as int),
                forall|k: int| 0 <= k < all@.len() ==> on_boundaries((#[trigger] all@[k])@, bytes@),
                forall|k: int| 0 <= k < all@.len() ==> (#[trigger] all@[k])@.len() == basic_group_count(pattern@, *flags),
                b.pattern@ == pattern@,
                b.flags == *flags,
                all_slices(full_matches@, group_matches@, bytes@),
                groups_counted(group_matches@, basic_group_count(pattern@, *flags) - 1),
            decreases all@.len() - i,
        {
            let (m, groups) = read_capture(bytes, 0, &all[i]);
            proof {
                lemma_shifted_zero(all@[i as int]@);
                assert(capture_of(m, groups) == all@[i as int]@);
                lemma_capture_slices(m, groups, bytes@, text@);
                lemma_slices_push(full_matches@, group_matches@, m, groups, bytes@);
                assert(capture_of(m, groups).len() == groups@.len() + 1);
                lemma_counted_push(group_matches@, groups, basic_group_count(pattern@, *flags) - 1);
                assert(capture_of(m, groups)[0] == Some(range_of(m)));
                assert(range_of(m) == all@[i as int]@[0]->0);
                if i > 0 {
                    assert(hi_of(all@[i - 1]@[0]->0) <= lo_of(all@[i as int]@[0]->0));
                }
                lemma_collect_push(full_matches@, group_matches@, bytes@, pos, m, groups);
                assert(want[i as int] == all@[i as int]@);
                assert(want.take(i + 1) =~= want.take(i as int).push(want[i as int]));
                pos = m.end as int;
            }
            full_matches.push(m);
            group_matches.push(groups);
            i += 1;
        }
        assert(want.take(i as int) =~= want);
        let r = MatchResult { full_matches, group_matches };
        proof {
            lemma_partial_result_done(r, bytes@.len(), pos);
        }
        Ok(r)
    }
}


// ===== The `fancy-regex` crate =====

#[verifier::external_type_specification]
#[verifier::external_body]
pub struct ExFancyRegex(fancy_regex::Regex);

/// The message of the error that `fancy_regex::RegexBuilder::build` gives
/// for a pattern, or none when it compiles the pattern.
pub uninterp spec fn fancy_compile_error(pattern: Seq<char>) -> Option<Seq<char>>;

/// What `fancy_regex::Regex::captures_from_pos` gives for a compiled
/// pattern, a text and a byte position: the first match from there on as
/// the byte range of each group, none, or the message of the error met
/// while matching.
pub uninterp spec fn fancy_search(pattern: Seq<char>, text: Seq<char>, pos: usize) -> Result<
    Option<Seq<Option<(usize, usize)>>>,
    Seq<char>,
>;

/// A pattern compiled by the `fancy-regex` crate, with the pattern it was
/// compiled from. Only `fancy_build` makes one.
pub struct FancyRegex {
    re: fancy_regex::Regex,
    pattern: String,
}

/// Builds a `fancy_regex::Regex` with `fancy_regex::RegexBuilder`; the
/// error as its message. The contract claims that the outcome is the
/// crate's, a function of the pattern.
#[verifier::external_body]
fn fancy_build(pattern: &str) -> (r: Result<FancyRegex, String>)
    ensures
        match fancy_compile_error(pattern@) {
            None => r matches Ok(f) && f.pattern@ == pattern@,
            Some(msg) => r matches Err(e) && e@ == msg,
        },
{
    match fancy_regex::RegexBuilder::new(pattern).build() {
        Ok(re) => Ok(FancyRegex { re, pattern: pattern.to_string() }),
        Err(e) => Err(e.to_string()),
    }
}

/// `fancy_regex::Regex::captures_from_pos`: the first match from byte `pos`
/// on, as the byte range of each group (`Captures::iter`), or the error's
/// message. The crate documents that the search starts at `pos`, that group
/// 0 is the whole match, and that offsets are into the text. It is called
/// only at a character boundary: from inside a character its backtracking
/// machine can slice the text off a boundary and panic.
#[verifier::external_body]
fn fancy_captures_from_pos(f: &FancyRegex, text: &str, pos: usize) -> (r: Result<
    Option<Vec<Option<(usize, usize)>>>,
    String,
>)
    requires
        pos <= byte_len(text@),
        is_char_boundary(encode_utf8(text@), pos as int),
    ensures
        search_view(r) == fancy_search(f.pattern@, text@, pos),
        r matches Ok(Some(v)) ==> capture_ok(v@, byte_len(text@) as int) && pos <= lo_of(v@[0]->0),
{
    match f.re.captures_from_pos(text, pos) {
        Ok(Some(c)) => Ok(Some(c.iter().map(|g| g.map(|m| (m.start(), m.end()))).collect())),
        Ok(None) => Ok(None),
        Err(e) => Err(e.to_string()),
    }
}

/// The number of bytes of the character whose encoding starts at byte `i`,
/// as UTF-8 writes it in the first byte.
pub open spec fn char_width_at(bytes: Seq<u8>, i: int) -> int {
    let c = bytes[i];
    if c <= 0x7f {
        1
    } else if 0xc0 <= c <= 0xdf {
        2
    } else if 0xe0 <= c <= 0xef {
        3
    } else {
        4
    }
}

fn char_width_at_exec(bytes: &[u8], i: usize) -> (w: usize)
    requires
        i < bytes@.len(),
    ensures
        w == char_width_at(bytes@, i as int),
        1 <= w <= 4,
{
    let c = bytes[i];
    if c <= 0x7f {
        1
    } else if 0xc0 <= c && c <= 0xdf {
        2
    } else if 0xe0 <= c && c <= 0xef {
        3
    } else {
        4
    }
}

/// The matches the fancy engine collects from byte `pos` on: a search from
/// `pos`; an empty match is skipped (the next search at the next
/// character, none when it lies at the end), any other match kept (the next
/// search where it ends); an error of a search is the error of the whole.
/// A search is made only from a character boundary: a position inside a
/// character ends the walk. The guard on a missing or misplaced whole match
/// never holds of the crate's results.
pub open spec fn fancy_walk(p: Seq<char>, text: Seq<char>, pos: int) -> Result<
    Seq<Seq<Option<(usize, usize)>>>,
    Seq<char>,
>
    decreases byte_len(text) + 4 - pos,
{
    if pos < 0 || pos > byte_len(text) || !is_char_boundary(encode_utf8(text), pos) {
        Ok(Seq::empty())
    } else {
        match fancy_search(p, text, pos as usize) {
            Err(e) => Err(e),
            Ok(None) => Ok(Seq::empty()),
            Ok(Some(c)) => {
                if !capture_ok(c, byte_len(text) as int) || lo_of(c[0]->0) < pos {
                    Ok(Seq::empty())
                } else if lo_of(c[0]->0) == hi_of(c[0]->0) {
                    if lo_of(c[0]->0) >= byte_len(text) {
                        Ok(Seq::empty())
                    } else {
                        fancy_walk(p, text, hi_of(c[0]->0) + char_width_at(encode_utf8(text), hi_of(c[0]->0) as int))
                    }
                } else {
                    then_rest(seq![c], fancy_walk(p, text, hi_of(c[0]->0) as int))
                }
            },
        }
    }
}

/// What the fancy engine reports: the compile error of the pattern with
/// the options before it, or the matches it collects from the start.
pub open spec fn fancy_outcome(pattern: Seq<char>, flags: RegexFlags, text: Seq<char>) -> Result<
    Seq<Seq<Option<(usize, usize)>>>,
    Seq<char>,
> {
    let p = inline_prefix(flags) + pattern;
    match fancy_compile_error(p) {
        Some(e) => Err(e),
        None => fancy_walk(p, text, 0),
    }
}

/// The engine of the `fancy-regex` crate: adds look-around and
/// back-references. The options go into the pattern as an inline group, and
/// an empty match is skipped (the search goes on one byte further).
pub struct FancyEngine;

impl RegexEngine for FancyEngine {
    fn name(&self) -> (r: EngineLevel)
        ensures
            r == EngineLevel::Fancy,
    {
        EngineLevel::Fancy
    }

    fn find_matches(&self, pattern: &str, text: &str, flags: &RegexFlags) -> (r: Result<MatchResult, String>)
        ensures
            reports(r, fancy_outcome(pattern@, *flags, text@), text@),
            r matches Ok(m) ==> no_empty_matches(m),
    {
        let prefixed = build_pattern(pattern, flags);
        let f = match fancy_build(prefixed.as_str()) {
            Ok(f) => f,
            Err(e) => {
                return Err(e);
            },
        };
        let ghost p = prefixed@;
        let ghost goal = fancy_walk(p, text@, 0);
        assert(fancy_compile_error(p) is None);
        assert(fancy_outcome(pattern@, *flags, text@) == goal);
        let bytes = text.as_bytes();
        let len = bytes.len();
        let mut full_matches: Vec<MatchSpan> = Vec::new();
        let mut group_matches: Vec<Vec<Option<MatchSpan>>> = Vec::new();
        let mut start: usize = 0;
        assert(captures_view(full_matches@, group_matches@) =~= Seq::<Seq<Option<(usize, usize)>>>::empty());
        assert(goal == then_rest(Seq::empty(), fancy_walk(p, text@, 0))) by {
            match fancy_walk(p, text@, 0) {
                Ok(more) => { assert(Seq::<Seq<Option<(usize, usize)>>>::empty() + more =~= more); },
                Err(_) => {},
            }
        }
        while start <= len
            invariant
                bytes@ == encode_utf8(text@),
                len == bytes@.len(),
                f.pattern@ == p,
                fancy_outcome(pattern@, *flags, text@) == goal,
                collecting(full_matches@, group_matches@, bytes@, start as int),
                all_nonempty(full_matches@),
                goal == then_rest(captures_view(full_matches@, group_matches@), fancy_walk(p, text@, start as int)),
            ensures
                collecting(full_matches@, group_matches@, bytes@, start as int),
                all_nonempty(full_matches@),
                goal == Ok::<Seq<Seq<Option<(usize, usize)>>>, Seq<char>>(captures_view(full_matches@, group_matches@)),
            decreases len + 1 - start,
        {
            if !text.is_char_boundary(start) {
                proof {
                    let done = captures_view(full_matches@, group_matches@);
                    assert(done + Seq::<Seq<Option<(usize, usize)>>>::empty() =~= done);
                    assert(fancy_walk(p, text@, start as int) == Ok::<Seq<Seq<Option<(usize, usize)>>>, Seq<char>>(
                        Seq::empty(),
                    ));
                }
                break;
            }
            let caps = match fancy_captures_from_pos(&f, text, start) {
                Ok(Some(c)) => c,
                Ok(None) => {
                    proof {
                        let done = captures_view(full_matches@, group_matches@);
                        assert(done + Seq::<Seq<Option<(usize, usize)>>>::empty() =~= done);
                    }
                    break;
                },
                Err(e) => {
                    assert(goal == Err::<Seq<Seq<Option<(usize, usize)>>>, Seq<char>>(e@));
                    return Err(e);
                },
            };
            assert(fancy_search(p, text@, start) == Ok::<Option<Seq<Option<(usize, usize)>>>, Seq<char>>(Some(caps@)));
            let (m, groups) = read_capture(bytes, 0, &caps);
            proof {
                lemma_shifted_zero(caps@);
                assert(capture_of(m, groups)[0] == Some(range_of(m)));
                assert(caps@[0] is Some);
                assert(caps@[0]->0 == range_of(m));
                assert(m.start <= m.end && m.end <= len);
                assert(start <= m.start);
            }
            if m.start == m.end {
                proof {
                    let done = captures_view(full_matches@, group_matches@);
                    assert(done + Seq::<Seq<Option<(usize, usize)>>>::empty() =~= done);
                }
                if m.start >= len {
                    assert(fancy_walk(p, text@, start as int) == Ok::<Seq<Seq<Option<(usize, usize)>>>, Seq<char>>(
                        Seq::empty(),
                    ));
                    break;
                }
                let w = char_width_at_exec(bytes, m.end);
                assert(fancy_walk(p, text@, start as int) == fancy_walk(p, text@, m.end + w));
                if w > len - m.end {
                    assert(fancy_walk(p, text@, m.end + w) == Ok::<Seq<Seq<Option<(usize, usize)>>>, Seq<char>>(
                        Seq::empty(),
                    ));
                    break;
                }
                start = m.end + w;
                continue;
            }
            proof {
                let done = captures_view(full_matches@, group_matches@);
                assert(fancy_walk(p, text@, start as int) == then_rest(seq![caps@], fancy_walk(p, text@, m.end as int)));
                lemma_collect_push(full_matches@, group_matches@, bytes@, start as int, m, groups);
                lemma_then_rest_assoc(done, seq![caps@], fancy_walk(p, text@, m.end as int));
                assert(capture_of(m, groups) == caps@);
                assert(done.push(caps@) =~= done + seq![caps@]);
            }
            start = m.end;
            full_matches.push(m);
            group_matches.push(groups);
        }
        let r = MatchResult { full_matches, group_matches };
        proof {
            lemma_partial_result_done(r, bytes@.len(), start as int);
        }
        Ok(r)
    }
}


// ===== The `pcre2` crate =====

#[verifier::external_type_specification]
#[verifier::external_body]
pub struct ExPcreRegex(pcre2::bytes::Regex);

/// The message of the error that `pcre2::bytes::RegexBuilder::build` gives
/// for a pattern in UTF-8 mode under the options (set one for one), or none
/// when it compiles the pattern.
pub uninterp spec fn pcre_compile_error(pattern: Seq<char>, flags: RegexFlags) -> Option<Seq<char>>;

/// What `pcre2::bytes::Regex::captures` gives for a pattern compiled under
/// the options, on a subject: the first match as the byte range of each
/// group, none, or the message of the error met while matching.
pub uninterp spec fn pcre_search(pattern: Seq<char>, flags: RegexFlags, subject: Seq<u8>) -> Result<
    Option<Seq<Option<(usize, usize)>>>,
    Seq<char>,
>;

/// What `pcre2::bytes::Regex::captures_len` gives for a pattern compiled in
/// UTF-8 mode under the options: the number of its groups, the whole match
/// included.
pub uninterp spec fn pcre_group_count(pattern: Seq<char>, flags: RegexFlags) -> nat;

/// A pattern compiled by the `pcre2` crate, with the pattern and the
/// options it was compiled from. Only `pcre_build` makes one.
pub struct PcreRegex {
    re: pcre2::bytes::Regex,
    pattern: String,
    flags: RegexFlags,
}

/// Builds a `pcre2::bytes::Regex` with `pcre2::bytes::RegexBuilder`, in
/// UTF-8 mode, the other options set one for one (`ucp` for Unicode); the
/// error as its message. The contract claims that the outcome is the
/// crate's, a function of the pattern and the options.
#[verifier::external_body]
fn pcre_build(pattern: &str, flags: &RegexFlags) -> (r: Result<PcreRegex, String>)
    ensures
        match pcre_compile_error(pattern@, *flags) {
            None => r matches Ok(c) && c.pattern@ == pattern@ && c.flags == *flags,
            Some(msg) => r matches Err(e) && e@ == msg,
        },
{
    let built = pcre2::bytes::RegexBuilder::new()
        .caseless(flags.case_insensitive)
        .multi_line(flags.multiline)
        .dotall(flags.dot_matches_newline)
        .ucp(flags.unicode)
        .utf(true)
        .extended(flags.extended)
        .build(pattern);
    match built {
        Ok(re) => Ok(PcreRegex { re, pattern: pattern.to_string(), flags: *flags }),
        Err(e) => Err(e.to_string()),
    }
}

/// `pcre2::bytes::Regex::captures` on the subject `bytes[start..]`: the
/// first match, as the byte range (in the subject) of each group
/// (`Captures::get` for every index below `Captures::len`), or the error's
/// message. The crate documents that offsets are into the subject; its
/// source sizes the groups of every match from the compiled pattern
/// (`Captures::len` is the length of a match-data block made for the
/// pattern, one more than its capture count, as `Regex::captures_len`).
/// Whether offsets fall on character boundaries is left unsaid: the crate
/// does not document it, and `\C` in UTF-8 mode matches a single byte.
#[verifier::external_body]
fn pcre_captures(c: &PcreRegex, bytes: &[u8], start: usize) -> (r: Result<
    Option<Vec<Option<(usize, usize)>>>,
    String,
>)
    requires
        start <= bytes@.len(),
    ensures
        search_view(r) == pcre_search(c.pattern@, c.flags, bytes@.subrange(start as int, bytes@.len() as int)),
        r matches Ok(Some(v)) ==> pairs_within(v@, bytes@.len() - start),
        r matches Ok(Some(v)) ==> v@.len() == pcre_group_count(c.pattern@, c.flags),
{
    match c.re.captures(&bytes[start..]) {
        Ok(Some(m)) => Ok(Some((0..m.len()).map(|i| m.get(i).map(|g| (g.start(), g.end()))).collect())),
        Ok(None) => Ok(None),
        Err(e) => Err(e.to_string()),
    }
}

/// The matches the PCRE2 engine collects from byte `start` on: a search of
/// the subject `bytes[start..]`; no match, or one without its whole match,
/// ends the search; an empty match is skipped (the next search one byte
/// after it), any other match kept, moved to offsets in `bytes` (the next
/// search where it ends); an error of a search is the error of the whole.
/// The guards on a reversed or overlong range never hold of the crate's
/// results.
pub open spec fn pcre_walk(p: Seq<char>, f: RegexFlags, bytes: Seq<u8>, start: int) -> Result<
    Seq<Seq<Option<(usize, usize)>>>,
    Seq<char>,
>
    decreases bytes.len() + 1 - start,
{
    if start < 0 || start > bytes.len() {
        Ok(Seq::empty())
    } else {
        match pcre_search(p, f, bytes.subrange(start, bytes.len() as int)) {
            Err(e) => Err(e),
            Ok(None) => Ok(Seq::empty()),
            Ok(Some(c)) => {
                if c.len() == 0 || c[0] is None || hi_of(c[0]->0) < lo_of(c[0]->0) || start + hi_of(c[0]->0)
                    > bytes.len() {
                    Ok(Seq::empty())
                } else if lo_of(c[0]->0) == hi_of(c[0]->0) {
                    pcre_walk(p, f, bytes, start + hi_of(c[0]->0) + 1)
                } else {
                    then_rest(seq![shifted(c, start)], pcre_walk(p, f, bytes, start + hi_of(c[0]->0)))
                }
            },
        }
    }
}

/// What the PCRE2 engine reports: the compile error, or the matches it
/// collects on the bytes of the text from the start.
pub open spec fn pcre_outcome(pattern: Seq<char>, flags: RegexFlags, text: Seq<char>) -> Result<
    Seq<Seq<Option<(usize, usize)>>>,
    Seq<char>,
> {
    match pcre_compile_error(pattern, flags) {
        Some(e) => Err(e),
        None => pcre_walk(pattern, flags, encode_utf8(text), 0),
    }
}

/// The engine of the `pcre2` crate: adds atomic groups, conditionals and
/// recursion. It searches the bytes of the text; each further search starts
/// where the last match ended (one byte further after an empty match, which
/// is skipped), on the rest of the text as a subject of its own.
pub struct Pcre2Engine;

impl RegexEngine for Pcre2Engine {
    fn name(&self) -> (r: EngineLevel)
        ensures
            r == EngineLevel::Pcre2,
    {
        EngineLevel::Pcre2
    }

    fn find_matches(&self, pattern: &str, text: &str, flags: &RegexFlags) -> (r: Result<MatchResult, String>)
        ensures
            reports(r, pcre_outcome(pattern@, *flags, text@), text@),
            r matches Ok(m) ==> no_empty_matches(m),
            r matches Ok(m) ==> groups_counted(m.group_matches@, pcre_group_count(pattern@, *flags) - 1),
    {
        let c = match pcre_build(pattern, flags) {
            Ok(c) => c,
            Err(e) => {
                return Err(e);
            },
        };
        let bytes = text.as_bytes();
        let len = bytes.len();
        let ghost goal = pcre_walk(pattern@, *flags, bytes@, 0);
        assert(pcre_compile_error(pattern@, *flags) is None);
        assert(pcre_outcome(pattern@, *flags, text@) == goal);
        let mut full_matches: Vec<MatchSpan> = Vec::new();
        let mut group_matches: Vec<Vec<Option<MatchSpan>>> = Vec::new();
        let mut start: usize = 0;
        assert(captures_view(full_matches@, group_matches@) =~= Seq::<Seq<Option<(usize, usize)>>>::empty());
        assert(goal == then_rest(Seq::empty(), pcre_walk(pattern@, *flags, bytes@, 0))) by {
            match pcre_walk(pattern@, *flags, bytes@, 0) {
                Ok(more) => { assert(Seq::<Seq<Option<(usize, usize)>>>::empty() + more =~= more); },
                Err(_) => {},
            }
        }
        while start <= len
            invariant
                bytes@ == encode_utf8(text@),
                len == bytes@.len(),
                c.pattern@ == pattern@,
                c.flags == *flags,
                pcre_outcome(pattern@, *flags, text@) == goal,
                collecting(full_matches@, group_matches@, bytes@, start as int),
                all_nonempty(full_matches@),
                groups_counted(group_matches@, pcre_group_count(pattern@, *flags) - 1),
                goal == then_rest(
                    captures_view(full_matches@, group_matches@),
                    pcre_walk(pattern@, *flags, bytes@, start as int),
                ),
            ensures
                collecting(full_matches@, group_matches@, bytes@, start as int),
                all_nonempty(full_matches@),
                groups_counted(group_matches@, pcre_group_count(pattern@, *flags) - 1),
                goal == Ok::<Seq<Seq<Option<(usize, usize)>>>, Seq<char>>(captures_view(full_matches@, group_matches@)),
            decreases len + 1 - start,
        {
            let ghost done = captures_view(full_matches@, group_matches@);
            proof {
                assert(done + Seq::<Seq<Option<(usize, usize)>>>::empty() =~= done);
            }
            let caps = match pcre_captures(&c, bytes, start) {
                Ok(Some(v)) => v,
                Ok(None) => {
                    break;
                },
                Err(e) => {
                    assert(goal == Err::<Seq<Seq<Option<(usize, usize)>>>, Seq<char>>(e@));
                    return Err(e);
                },
            };
            if caps.len() == 0 {
                break;
            }
            let (ms, me) = match caps[0] {
                Some(p) => p,
                None => {
                    break;
                },
            };
            assert(caps@[0] is Some && caps@[0]->0 == (ms, me));
            assert(ms <= me && me <= len - start);
            if ms == me {
                if start + me >= len {
                    assert(pcre_walk(pattern@, *flags, bytes@, start + me + 1) == Ok::<
                        Seq<Seq<Option<(usize, usize)>>>,
                        Seq<char>,
                    >(Seq::empty()));
                    assert(pcre_walk(pattern@, *flags, bytes@, start as int) == pcre_walk(
                        pattern@,
                        *flags,
                        bytes@,
                        start + me + 1,
                    ));
                    break;
                }
                assert(pcre_walk(pattern@, *flags, bytes@, start as int) == pcre_walk(
                    pattern@,
                    *flags,
                    bytes@,
                    start + me + 1,
                ));
                start = start + me + 1;
                continue;
            }
            let (m, groups) = read_capture(bytes, start, &caps);
            proof {
                assert(capture_of(m, groups)[0] == Some(range_of(m)));
                assert(pcre_walk(pattern@, *flags, bytes@, start as int) == then_rest(
                    seq![shifted(caps@, start as int)],
                    pcre_walk(pattern@, *flags, bytes@, m.end as int),
                ));
                assert(done.push(shifted(caps@, start as int)) =~= done + seq![shifted(caps@, start as int)]);
                lemma_collect_push(full_matches@, group_matches@, bytes@, start as int, m, groups);
                assert(capture_of(m, groups).len() == groups@.len() + 1);
                assert(shifted(caps@, start as int).len() == caps@.len());
                lemma_counted_push(group_matches@, groups, pcre_group_count(pattern@, *flags) - 1);
                lemma_then_rest_assoc(
                    done,
                    seq![shifted(caps@, start as int)],
                    pcre_walk(pattern@, *flags, bytes@, m.end as int),
                );
            }
            start = m.end;
            full_matches.push(m);
            group_matches.push(groups);
        }
        let r = MatchResult { full_matches, group_matches };
        proof {
            lemma_partial_result_done(r, bytes@.len(), start as int);
        }
        Ok(r)
    }
}


// ===== Choosing the engine =====

/// The state of the engine choice: the engine in use, the one that the
/// pattern's features call for, and whether the user chose by hand.
pub ghost struct ManagerView {
    pub current: EngineLevel,
    pub auto_detected: EngineLevel,
    pub manual: bool,
}

/// After the pattern's features called for `level`: followed unless the
/// user chose by hand.
pub open spec fn after_set_auto(v: ManagerView, level: EngineLevel) -> ManagerView {
    ManagerView { current: if v.manual { v.current } else { level }, auto_detected: level, manual: v.manual }
}

/// After the user moved on to the next engine by hand.
pub open spec fn after_cycle(v: ManagerView) -> ManagerView {
    ManagerView { current: next_level(v.current), auto_detected: v.auto_detected, manual: true }
}

/// After the user gave the choice back to the features.
pub open spec fn after_reset(v: ManagerView) -> ManagerView {
    ManagerView { current: v.auto_detected, auto_detected: v.auto_detected, manual: false }
}

/// What an engine reports for a pattern on a text under the options.
pub open spec fn engine_outcome(e: EngineLevel, pattern: Seq<char>, flags: RegexFlags, text: Seq<char>) -> Result<
    Seq<Seq<Option<(usize, usize)>>>,
    Seq<char>,
> {
    match e {
        EngineLevel::Basic => basic_outcome(pattern, flags, text),
        EngineLevel::Fancy => fancy_outcome(pattern, flags, text),
        EngineLevel::Pcre2 => pcre_outcome(pattern, flags, text),
    }
}

/// Which engine runs, chosen from the pattern's features unless the user
/// chose by hand.
pub struct EngineManager {
    current: EngineLevel,
    auto_detected: EngineLevel,
    manual_override: bool,
}

impl View for EngineManager {
    type V = ManagerView;

    closed spec fn view(&self) -> ManagerView {
        ManagerView { current: self.current, auto_detected: self.auto_detected, manual: self.manual_override }
    }
}

impl EngineManager {
    /// The basic engine, chosen automatically.
    pub fn new() -> (r: Self)
        ensures
            r@ == (ManagerView { current: EngineLevel::Basic, auto_detected: EngineLevel::Basic, manual: false }),
    {
        EngineManager { current: EngineLevel::Basic, auto_detected: EngineLevel::Basic, manual_override: false }
    }

    /// The engine in use.
    pub fn current_level(&self) -> (r: EngineLevel)
        ensures
            r == self@.current,
    {
        self.current
    }

    /// Records the engine that the pattern's features call for, and uses it
    /// unless the user chose by hand.
    pub fn set_auto_level(&mut self, level: EngineLevel)
        ensures
            final(self)@ == after_set_auto(old(self)@, level),
    {
        self.auto_detected = level;
        if !self.manual_override {
            self.current = level;
        }
    }

    /// Moves on to the next engine, as a choice by hand.
    pub fn cycle_engine(&mut self)
        ensures
            final(self)@ == after_cycle(old(self)@),
    {
        self.manual_override = true;
        self.current = self.current.next();
    }

    /// Whether the user chose the engine by hand.
    pub fn is_manual(&self) -> (r: bool)
        ensures
            r == self@.manual,
    {
        self.manual_override
    }

    /// Gives the choice back to the pattern's features.
    pub fn reset_to_auto(&mut self)
        ensures
            final(self)@ == after_reset(old(self)@),
    {
        self.manual_override = false;
        self.current = self.auto_detected;
    }

    /// Every match of `pattern` in `text` with the engine in use.
    pub fn execute(&self, pattern: &str, text: &str, flags: &RegexFlags) -> (r: Result<MatchResult, String>)
        ensures
            reports(r, engine_outcome(self@.current, pattern@, *flags, text@), text@),
            r matches Ok(m) ==> well_formed_result(m, byte_len(text@)),
            self@.current != EngineLevel::Basic ==> (r matches Ok(m) ==> no_empty_matches(m)),
            self@.current == EngineLevel::Basic ==> (r matches Ok(m) ==> all_slices(
                m.full_matches@,
                m.group_matches@,
                encode_utf8(text@),
            )),
            self@.current == EngineLevel::Basic ==> (r matches Ok(m) ==> groups_counted(
                m.group_matches@,
                basic_group_count(pattern@, *flags) - 1,
            )),
            self@.current == EngineLevel::Pcre2 ==> (r matches Ok(m) ==> groups_counted(
                m.group_matches@,
                pcre_group_count(pattern@, *flags) - 1,
            )),
    {
        match self.current {
            EngineLevel::Basic => {
                let engine = BasicEngine;
                engine.find_matches(pattern, text, flags)
            },
            EngineLevel::Fancy => {
                let engine = FancyEngine;
                engine.find_matches(pattern, text, flags)
            },
            EngineLevel::Pcre2 => {
                let engine = Pcre2Engine;
                engine.find_matches(pattern, text, flags)
            },
        }
    }
}

/// Moving on by hand three times comes back to the same engine.
pub proof fn law_cycle_three_times(v: ManagerView)
    ensures
        after_cycle(after_cycle(after_cycle(v))).current == v.current,
        after_cycle(after_cycle(after_cycle(v))).manual,
{
}

/// Once the user chose by hand, what the features call for no longer
/// changes the engine in use; before that, it does.
pub proof fn law_manual_choice_sticks(v: ManagerView, level: EngineLevel)
    ensures
        v.manual ==> after_set_auto(v, level).current == v.current,
        !v.manual ==> after_set_auto(v, level).current == level,
        after_set_auto(after_cycle(v), level).current == next_level(v.current),
{
}

/// Giving the choice back brings in the engine that the features last
/// called for.
pub proof fn law_reset_follows_features(v: ManagerView, level: EngineLevel)
    ensures
        after_reset(after_set_auto(v, level)).current == level,
        !after_reset(v).manual,
        after_reset(after_cycle(v)).current == v.auto_detected,
{
}

/// Every engine cycles with period three, and the next engine is never the
/// same one.
pub proof fn law_next_level_cycle(e: EngineLevel)
    ensures
        next_level(next_level(next_level(e))) == e,
        next_level(e) != e,
{
}


/// A call that changes the engine choice: the features called for a level
/// (`set_auto_level`), a move on by hand (`cycle_engine`), or the choice
/// given back (`reset_to_auto`).
pub ghost enum ManagerOp {
    SetAuto(EngineLevel),
    Cycle,
    Reset,
}

/// The choice of a new manager: the basic engine, chosen automatically.
pub open spec fn initial_manager() -> ManagerView {
    ManagerView { current: EngineLevel::Basic, auto_detected: EngineLevel::Basic, manual: false }
}

/// The choice after one call.
pub open spec fn after_op(v: ManagerView, op: ManagerOp) -> ManagerView {
    match op {
        ManagerOp::SetAuto(level) => after_set_auto(v, level),
        ManagerOp::Cycle => after_cycle(v),
        ManagerOp::Reset => after_reset(v),
    }
}

/// The choice after a sequence of calls, first to last.
pub open spec fn after_ops(v: ManagerView, ops: Seq<ManagerOp>) -> ManagerView
    decreases ops.len(),
{
    if ops.len() == 0 {
        v
    } else {
        after_op(after_ops(v, ops.drop_last()), ops.last())
    }
}

/// The level of the last `set_auto_level` call of a sequence, `d` when
/// there is none.
pub open spec fn last_auto(ops: Seq<ManagerOp>, d: EngineLevel) -> EngineLevel
    decreases ops.len(),
{
    if ops.len() == 0 {
        d
    } else {
        match ops.last() {
            ManagerOp::SetAuto(level) => level,
            _ => last_auto(ops.drop_last(), d),
        }
    }
}

/// From a new manager, after any sequence of calls: the level recorded as
/// detected is the one of the last `set_auto_level` call (the basic engine
/// if none); while the choice is automatic that level is the engine in use;
/// and giving the choice back brings it in.
pub proof fn law_automatic_shows_last_detected(ops: Seq<ManagerOp>)
    ensures
        after_ops(initial_manager(), ops).auto_detected == last_auto(ops, EngineLevel::Basic),
        !after_ops(initial_manager(), ops).manual ==> after_ops(initial_manager(), ops).current == last_auto(
            ops,
            EngineLevel::Basic,
        ),
        after_ops(initial_manager(), ops.push(ManagerOp::Reset)).current == last_auto(ops, EngineLevel::Basic),
        !after_ops(initial_manager(), ops.push(ManagerOp::Reset)).manual,
    decreases ops.len(),
{
    if ops.len() > 0 {
        law_automatic_shows_last_detected(ops.drop_last());
    }
    assert(ops.push(ManagerOp::Reset).drop_last() =~= ops);
}

/// The letters of the inline group hold the letter of an option exactly
/// when it is on (`i`, `m`, `s`, `u`, `x`), and the group is there exactly
/// when some option is on.
pub proof fn law_flag_letters(f: RegexFlags)
    ensures
        flag_letters(f).contains('i') <==> f.case_insensitive,
        flag_letters(f).contains('m') <==> f.multiline,
        flag_letters(f).contains('s') <==> f.dot_matches_newline,
        flag_letters(f).contains('u') <==> f.unicode,
        flag_letters(f).contains('x') <==> f.extended,
        inline_prefix(f).len() > 0 <==> any_flag(f),
{
    let a = letter_if(f.case_insensitive, 'i');
    let b = letter_if(f.multiline, 'm');
    let c = letter_if(f.dot_matches_newline, 's');
    let d = letter_if(f.unicode, 'u');
    let e = letter_if(f.extended, 'x');
    assert forall|x: char| #[trigger] flag_letters(f).contains(x) <==> (a.contains(x) || b.contains(x)
        || c.contains(x) || d.contains(x) || e.contains(x)) by {
        lemma_contains_concat(a, b, x);
        lemma_contains_concat(a + b, c, x);
        lemma_contains_concat(a + b + c, d, x);
        lemma_contains_concat(a + b + c + d, e, x);
    }
    assert forall|x: char, y: char, on: bool| #[trigger] letter_if(on, y).contains(x) <==> (on && x == y) by {
        if on && x == y {
            assert(letter_if(on, y)[0] == x);
        }
    }
    assert(a.contains('i') == f.case_insensitive);
    assert(b.contains('m') == f.multiline);
    assert(c.contains('s') == f.dot_matches_newline);
    assert(d.contains('u') == f.unicode);
    assert(e.contains('x') == f.extended);
    reveal_strlit("(?");
}

} // verus!
