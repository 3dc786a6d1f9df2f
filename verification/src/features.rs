//! Which engine a pattern needs: a scan of the pattern's bytes for the
//! constructs that only the more capable engines support.

use vstd::prelude::*;
use vstd::utf8::encode_utf8;
use crate::engine::EngineLevel;

verus! {

/// The constructs found in a pattern that call for more than the basic
/// engine.
#[derive(Debug, Clone, Copy)]
pub struct FeatureSet {
    pub has_lookahead: bool,
    pub has_lookbehind: bool,
    pub has_backreference: bool,
    pub has_atomic_group: bool,
    pub has_conditional: bool,
    pub has_recursion: bool,
}

/// No construct found.
pub open spec fn no_features() -> FeatureSet {
    FeatureSet {
        has_lookahead: false,
        has_lookbehind: false,
        has_backreference: false,
        has_atomic_group: false,
        has_conditional: false,
        has_recursion: false,
    }
}

impl Default for FeatureSet {
    /// No construct found.
    fn default() -> (r: Self)
        ensures
            r == no_features(),
    {
        FeatureSet {
            has_lookahead: false,
            has_lookbehind: false,
            has_backreference: false,
            has_atomic_group: false,
            has_conditional: false,
            has_recursion: false,
        }
    }
}

/// The least engine that supports the constructs found: PCRE2 for
/// recursion, conditionals and atomic groups; fancy-regex for look-around
/// and back-references; the basic engine otherwise.
pub open spec fn engine_for(f: FeatureSet) -> EngineLevel {
    if f.has_recursion || f.has_conditional || f.has_atomic_group {
        EngineLevel::Pcre2
    } else if f.has_lookahead || f.has_lookbehind || f.has_backreference {
        EngineLevel::Fancy
    } else {
        EngineLevel::Basic
    }
}

impl FeatureSet {
    /// The least engine that supports the constructs found.
    pub fn required_engine(&self) -> (r: EngineLevel)
        ensures
            r == engine_for(*self),
    {
        if self.has_recursion || self.has_conditional || self.has_atomic_group {
            EngineLevel::Pcre2
        } else if self.has_lookahead || self.has_lookbehind || self.has_backreference {
            EngineLevel::Fancy
        } else {
            EngineLevel::Basic
        }
    }
}

/// Whether byte `j` of `b` exists and is `x`.
pub open spec fn byte_is(b: Seq<u8>, j: int, x: u8) -> bool {
    0 <= j < b.len() && b[j] == x
}

/// What the group opener `(?` at byte `i` shows: `(?=`/`(?!` a lookahead,
/// `(?<=`/`(?<!` a lookbehind, `(?>` an atomic group, `(?(` a conditional,
/// `(?R)`/`(?0)` recursion.
pub open spec fn classify_group(b: Seq<u8>, i: int, f: FeatureSet) -> FeatureSet {
    if byte_is(b, i + 2, 0x3d) || byte_is(b, i + 2, 0x21) {
        FeatureSet { has_lookahead: true, ..f }
    } else if byte_is(b, i + 2, 0x3c) && (byte_is(b, i + 3, 0x3d) || byte_is(b, i + 3, 0x21)) {
        FeatureSet { has_lookbehind: true, ..f }
    } else if byte_is(b, i + 2, 0x3e) {
        FeatureSet { has_atomic_group: true, ..f }
    } else if byte_is(b, i + 2, 0x28) {
        FeatureSet { has_conditional: true, ..f }
    } else if (byte_is(b, i + 2, 0x52) || byte_is(b, i + 2, 0x30)) && byte_is(b, i + 3, 0x29) {
        FeatureSet { has_recursion: true, ..f }
    } else {
        f
    }
}

/// The scan of the bytes of a pattern from byte `i`, adding to `f`: a
/// backslash escapes the next byte (`\1` to `\9` are back-references); a
/// `(?` opens a group that `classify_group` reads.
pub open spec fn scan(b: Seq<u8>, i: int, f: FeatureSet) -> FeatureSet
    decreases b.len() - i,
{
    if i < 0 || i >= b.len() {
        f
    } else if b[i] == 0x5c && i + 1 < b.len() {
        let f2 = if 0x31 <= b[i + 1] && b[i + 1] <= 0x39 { FeatureSet { has_backreference: true, ..f } } else { f };
        scan(b, i + 2, f2)
    } else {
        let f2 = if b[i] == 0x28 && byte_is(b, i + 1, 0x3f) { classify_group(b, i, f) } else { f };
        scan(b, i + 1, f2)
    }
}

fn byte_at_is(b: &[u8], j: usize, x: u8) -> (r: bool)
    ensures
        r == byte_is(b@, j as int, x),
{
    j < b.len() && b[j] == x
}

/// Adds to `features` what the scan of the pattern's bytes finds.
pub fn scan_raw_pattern(pattern: &str, features: &mut FeatureSet)
    ensures
        *final(features) == scan(encode_utf8(pattern@), 0, *old(features)),
{
    let bytes = pattern.as_bytes();
    let len = bytes.len();
    let ghost b = bytes@;
    let ghost goal = scan(b, 0, *features);
    let mut i: usize = 0;
    while i < len
        invariant
            b == bytes@,
            len == b.len(),
            scan(b, i as int, *features) == goal,
        decreases len - i,
    {
        if bytes[i] == 0x5c && i + 1 < len {
            let next = bytes[i + 1];
            if next >= 0x31 && next <= 0x39 {
                features.has_backreference = true;
            }
            i += 2;
            continue;
        }
        if bytes[i] == 0x28 && i + 1 < len && bytes[i + 1] == 0x3f {
            if byte_at_is(bytes, i + 2, 0x3d) || byte_at_is(bytes, i + 2, 0x21) {
                features.has_lookahead = true;
            } else if byte_at_is(bytes, i + 2, 0x3c) && (byte_at_is(bytes, i + 3, 0x3d) || byte_at_is(
                bytes,
                i + 3,
                0x21,
            )) {
                features.has_lookbehind = true;
            } else if byte_at_is(bytes, i + 2, 0x3e) {
                features.has_atomic_group = true;
            } else if byte_at_is(bytes, i + 2, 0x28) {
                features.has_conditional = true;
            } else if (byte_at_is(bytes, i + 2, 0x52) || byte_at_is(bytes, i + 2, 0x30)) && byte_at_is(
                bytes,
                i + 3,
                0x29,
            ) {
                features.has_recursion = true;
            }
        }
        i += 1;
    }
}

/// The constructs of a pattern that call for more than the basic engine,
/// found by the byte scan.
pub fn detect_features(pattern: &str) -> (r: FeatureSet)
    ensures
        r == scan(encode_utf8(pattern@), 0, no_features()),
{
    let mut features = FeatureSet::default();
    scan_raw_pattern(pattern, &mut features);
    features
}


/// Whether every construct recorded in `a` is recorded in `b`.
pub open spec fn features_within(a: FeatureSet, b: FeatureSet) -> bool {
    &&& a.has_lookahead ==> b.has_lookahead
    &&& a.has_lookbehind ==> b.has_lookbehind
    &&& a.has_backreference ==> b.has_backreference
    &&& a.has_atomic_group ==> b.has_atomic_group
    &&& a.has_conditional ==> b.has_conditional
    &&& a.has_recursion ==> b.has_recursion
}

/// The order of the engines by what they support.
pub open spec fn level_rank(e: EngineLevel) -> int {
    match e {
        EngineLevel::Basic => 0,
        EngineLevel::Fancy => 1,
        EngineLevel::Pcre2 => 2,
    }
}

/// The scan only adds constructs: what was found stays found, so the
/// engine it calls for never drops to a less capable one.
pub proof fn law_scan_only_adds(b: Seq<u8>, i: int, f: FeatureSet)
    ensures
        features_within(f, scan(b, i, f)),
        level_rank(engine_for(f)) <= level_rank(engine_for(scan(b, i, f))),
    decreases b.len() - i,
{
    if 0 <= i < b.len() {
        if b[i] == 0x5c && i + 1 < b.len() {
            let f2 = if 0x31 <= b[i + 1] && b[i + 1] <= 0x39 { FeatureSet { has_backreference: true, ..f } } else { f };
            law_scan_only_adds(b, i + 2, f2);
        } else {
            let f2 = if b[i] == 0x28 && byte_is(b, i + 1, 0x3f) { classify_group(b, i, f) } else { f };
            law_scan_only_adds(b, i + 1, f2);
        }
    }
}

/// A pattern with no `\` and no `(` needs only the basic engine.
pub proof fn law_plain_pattern_is_basic(b: Seq<u8>, i: int)
    requires
        forall|k: int| 0 <= k < b.len() ==> b[k] != 0x5c && b[k] != 0x28,
    ensures
        scan(b, i, no_features()) == no_features(),
        engine_for(scan(b, i, no_features())) == EngineLevel::Basic,
    decreases b.len() - i,
{
    if 0 <= i < b.len() {
        law_plain_pattern_is_basic(b, i + 1);
    }
}

/// How many backslashes stand right before byte `i`.
pub open spec fn backslashes_before(b: Seq<u8>, i: int) -> nat
    decreases i,
{
    if i > 0 && i <= b.len() && b[i - 1] == 0x5c {
        1 + backslashes_before(b, i - 1)
    } else {
        0
    }
}

/// Whether byte `i` is not escaped: an even number of backslashes stands
/// right before it.
pub open spec fn unescaped(b: Seq<u8>, i: int) -> bool {
    backslashes_before(b, i) % 2 == 0
}

/// The constructs that call for more than the basic engine.
pub ghost enum Construct {
    Lookahead,
    Lookbehind,
    Backreference,
    AtomicGroup,
    Conditional,
    Recursion,
}

/// Whether a feature set records a construct.
pub open spec fn has_construct(f: FeatureSet, k: Construct) -> bool {
    match k {
        Construct::Lookahead => f.has_lookahead,
        Construct::Lookbehind => f.has_lookbehind,
        Construct::Backreference => f.has_backreference,
        Construct::AtomicGroup => f.has_atomic_group,
        Construct::Conditional => f.has_conditional,
        Construct::Recursion => f.has_recursion,
    }
}

/// Whether the syntax of a construct starts at byte `i`: `(?=` or `(?!`,
/// `(?<=` or `(?<!`, `\1` to `\9`, `(?>`, `(?(`, `(?R)` or `(?0)`.
pub open spec fn construct_at(b: Seq<u8>, i: int, k: Construct) -> bool {
    match k {
        Construct::Backreference => byte_is(b, i, 0x5c) && i + 1 < b.len() && 0x31 <= b[i + 1] <= 0x39,
        _ => byte_is(b, i, 0x28) && byte_is(b, i + 1, 0x3f) && match k {
            Construct::Lookahead => byte_is(b, i + 2, 0x3d) || byte_is(b, i + 2, 0x21),
            Construct::Lookbehind => byte_is(b, i + 2, 0x3c) && (byte_is(b, i + 3, 0x3d) || byte_is(b, i + 3, 0x21)),
            Construct::AtomicGroup => byte_is(b, i + 2, 0x3e),
            Construct::Conditional => byte_is(b, i + 2, 0x28),
            _ => (byte_is(b, i + 2, 0x52) || byte_is(b, i + 2, 0x30)) && byte_is(b, i + 3, 0x29),
        },
    }
}

/// The least engine that supports a construct: fancy-regex for look-around
/// and back-references, PCRE2 for atomic groups, conditionals and
/// recursion.
pub open spec fn construct_engine(k: Construct) -> EngineLevel {
    match k {
        Construct::Lookahead | Construct::Lookbehind | Construct::Backreference => EngineLevel::Fancy,
        _ => EngineLevel::Pcre2,
    }
}

proof fn lemma_recorded_stays(f: FeatureSet, g: FeatureSet, k: Construct)
    requires
        has_construct(f, k),
        features_within(f, g),
    ensures
        has_construct(g, k),
        level_rank(engine_for(g)) >= level_rank(construct_engine(k)),
{
}

proof fn lemma_scan_finds(b: Seq<u8>, j: int, i: int, f: FeatureSet, k: Construct)
    requires
        0 <= j <= i,
        unescaped(b, j),
        unescaped(b, i),
        construct_at(b, i, k),
    ensures
        has_construct(scan(b, j, f), k),
    decreases i - j,
{
    if j == i {
        if b[i] == 0x5c {
            let f2 = FeatureSet { has_backreference: true, ..f };
            law_scan_only_adds(b, i + 2, f2);
            lemma_recorded_stays(f2, scan(b, i + 2, f2), k);
        } else {
            let f2 = classify_group(b, i, f);
            assert(has_construct(f2, k));
            law_scan_only_adds(b, i + 1, f2);
            lemma_recorded_stays(f2, scan(b, i + 1, f2), k);
        }
    } else if b[j] == 0x5c && j + 1 < b.len() {
        let f2 = if 0x31 <= b[j + 1] && b[j + 1] <= 0x39 { FeatureSet { has_backreference: true, ..f } } else { f };
        if j + 1 == i {
            assert(backslashes_before(b, i) == 1 + backslashes_before(b, j));
            assert(false);
        }
        if b[j + 1] == 0x5c {
            assert(backslashes_before(b, j + 1) == 1 + backslashes_before(b, j));
            assert(backslashes_before(b, j + 2) == 1 + backslashes_before(b, j + 1));
        } else {
            assert(backslashes_before(b, j + 2) == 0);
        }
        lemma_scan_finds(b, j + 2, i, f2, k);
    } else {
        let f2 = if b[j] == 0x28 && byte_is(b, j + 1, 0x3f) { classify_group(b, j, f) } else { f };
        assert(b[j] != 0x5c);
        assert(backslashes_before(b, j + 1) == 0);
        lemma_scan_finds(b, j + 1, i, f2, k);
    }
}

/// A construct whose syntax stands in the pattern where no backslash
/// escapes it is found by the scan, so the engine the pattern calls for is
/// at least the one that supports it, whatever was found before.
pub proof fn law_construct_found(b: Seq<u8>, i: int, f: FeatureSet, k: Construct)
    requires
        0 <= i,
        unescaped(b, i),
        construct_at(b, i, k),
    ensures
        has_construct(scan(b, 0, f), k),
        level_rank(engine_for(scan(b, 0, f))) >= level_rank(construct_engine(k)),
{
    assert(backslashes_before(b, 0) == 0);
    lemma_scan_finds(b, 0, i, f, k);
    law_scan_only_adds(b, 0, f);
    lemma_recorded_stays(scan(b, 0, f), scan(b, 0, f), k);
}

/// In particular, a pattern with an unescaped `(?=` or `(?!` has a
/// lookahead and calls for at least the fancy-regex engine.
pub proof fn law_lookahead_found(b: Seq<u8>, i: int, f: FeatureSet)
    requires
        0 <= i,
        unescaped(b, i),
        byte_is(b, i, 0x28),
        byte_is(b, i + 1, 0x3f),
        byte_is(b, i + 2, 0x3d) || byte_is(b, i + 2, 0x21),
    ensures
        scan(b, 0, f).has_lookahead,
        level_rank(engine_for(scan(b, 0, f))) >= level_rank(EngineLevel::Fancy),
{
    law_construct_found(b, i, f, Construct::Lookahead);
}

} // verus!
