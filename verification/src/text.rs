//! Small string helpers shared by the rest of the library: turning a `str`
//! into its characters, appending to a `String`, and writing numbers in
//! decimal.

use vstd::prelude::*;
use vstd::utf8::{
    encode_utf8, encode_utf8_decode_utf8, encode_utf8_first_scalar, encode_utf8_valid_utf8, encode_scalar,
    is_char_boundary, pop_first_scalar, length_of_first_scalar, char_is_scalar, valid_utf8,
};

verus! {

/// The characters of `s`, in order.
pub fn chars_of(s: &str) -> (v: Vec<char>)
    ensures
        v@ == s@,
{
    let mut v: Vec<char> = Vec::new();
    for c in it: s.chars()
        invariant
            v@ == it.seq().take(it.index() as int),
            it.seq() == s@,
    {
        v.push(c);
    }
    v
}

/// Appends one character: `String::push`.
#[verifier::external_body]
pub(crate) fn push_char(s: &mut String, c: char)
    ensures
        final(s)@ == old(s)@.push(c),
{
    s.push(c)
}

/// Appends a string slice.
pub fn push_str(s: &mut String, t: &str)
    ensures
        final(s)@ == old(s)@ + t@,
{
    s.append(t);
}

/// Appends a sequence of characters.
pub fn push_chars(s: &mut String, cs: &[char])
    ensures
        final(s)@ == old(s)@ + cs@,
{
    let ghost start = s@;
    let mut i: usize = 0;
    while i < cs.len()
        invariant
            i <= cs@.len(),
            s@ == start + cs@.take(i as int),
        decreases cs@.len() - i,
    {
        push_char(s, cs[i]);
        i += 1;
        assert(cs@.take(i as int) == cs@.take((i - 1) as int).push(cs@[i - 1]));
    }
    assert(cs@.take(i as int) == cs@);
}

/// A `String` holding exactly the characters `cs`.
pub fn string_of(cs: &[char]) -> (s: String)
    ensures
        s@ == cs@,
{
    let mut s = String::new();
    push_chars(&mut s, cs);
    s
}

/// A `String` holding the characters of `t`.
pub fn string_from(t: &str) -> (s: String)
    ensures
        s@ == t@,
{
    let mut s = String::new();
    s.append(t);
    s
}

/// The character of a decimal digit.
pub open spec fn digit_char(d: int) -> char {
    if d == 0 { '0' }
    else if d == 1 { '1' }
    else if d == 2 { '2' }
    else if d == 3 { '3' }
    else if d == 4 { '4' }
    else if d == 5 { '5' }
    else if d == 6 { '6' }
    else if d == 7 { '7' }
    else if d == 8 { '8' }
    else { '9' }
}

/// The decimal writing of `n`, most significant digit first, without
/// leading zeros (`"0"` for zero).
pub open spec fn decimal(n: nat) -> Seq<char>
    decreases n,
{
    if n < 10 {
        seq![digit_char(n as int)]
    } else {
        decimal(n / 10).push(digit_char((n % 10) as int))
    }
}

fn digit_of(d: usize) -> (c: char)
    requires
        d < 10,
    ensures
        c == digit_char(d as int),
{
    if d == 0 { '0' }
    else if d == 1 { '1' }
    else if d == 2 { '2' }
    else if d == 3 { '3' }
    else if d == 4 { '4' }
    else if d == 5 { '5' }
    else if d == 6 { '6' }
    else if d == 7 { '7' }
    else if d == 8 { '8' }
    else { '9' }
}

/// Appends the decimal writing of `n`.
pub fn push_decimal(s: &mut String, n: usize)
    ensures
        final(s)@ == old(s)@ + decimal(n as nat),
    decreases n,
{
    if n < 10 {
        push_char(s, digit_of(n));
    } else {
        push_decimal(s, n / 10);
        push_char(s, digit_of(n % 10));
    }
}

/// The decimal writing of `n` as a new `String`.
pub fn decimal_string(n: usize) -> (s: String)
    ensures
        s@ == decimal(n as nat),
{
    let mut s = String::new();
    push_decimal(&mut s, n);
    s
}


// ===== Byte offsets of characters in UTF-8 =====

/// The byte offset, in the UTF-8 encoding of `s`, of character `k`.
pub open spec fn byte_offset(s: Seq<char>, k: int) -> nat {
    encode_utf8(s.take(k)).len()
}

/// Whether byte offset `cursor` of `s` is the start of character `k` (or
/// the end, for `k == s.len()`).
pub open spec fn cursor_at(s: Seq<char>, cursor: usize, k: int) -> bool {
    0 <= k <= s.len() && byte_offset(s, k) == cursor
}

/// Whether byte offset `cursor` of `s` lies on a character boundary.
pub open spec fn cursor_ok(s: Seq<char>, cursor: usize) -> bool {
    exists|k: int| cursor_at(s, cursor, k)
}

/// The character index of a cursor on a boundary.
pub open spec fn char_index(s: Seq<char>, cursor: usize) -> int {
    choose|k: int| cursor_at(s, cursor, k)
}

/// The encoding of a concatenation is the concatenation of the encodings.
pub proof fn lemma_encode_concat(a: Seq<char>, b: Seq<char>)
    ensures
        encode_utf8(a + b) == encode_utf8(a) + encode_utf8(b),
    decreases a.len(),
{
    if a.len() == 0 {
        assert(a + b =~= b);
        assert(encode_utf8(a) + encode_utf8(b) =~= encode_utf8(b));
    } else {
        lemma_encode_concat(a.drop_first(), b);
        assert((a + b).drop_first() =~= a.drop_first() + b);
        assert((a + b)[0] == a[0]);
        assert(encode_utf8(a + b) =~= encode_utf8(a) + encode_utf8(b));
    }
}

/// A character takes at least one byte.
pub proof fn lemma_encode_nonempty(s: Seq<char>)
    requires
        s.len() > 0,
    ensures
        encode_utf8(s).len() >= s.len(),
    decreases s.len(),
{
    if s.len() > 1 {
        lemma_encode_nonempty(s.drop_first());
    }
}

/// The offsets of the characters grow strictly.
pub proof fn lemma_offset_strict(s: Seq<char>, j: int, k: int)
    requires
        0 <= j < k <= s.len(),
    ensures
        byte_offset(s, j) < byte_offset(s, k),
        byte_offset(s, k) <= encode_utf8(s).len(),
{
    lemma_encode_concat(s.take(j), s.subrange(j, k));
    assert(s.take(j) + s.subrange(j, k) =~= s.take(k));
    lemma_encode_nonempty(s.subrange(j, k));
    lemma_encode_concat(s.take(k), s.skip(k));
    assert(s.take(k) + s.skip(k) =~= s);
}

/// The offset of every character (and of the end) is a character boundary.
pub proof fn lemma_offset_is_boundary(s: Seq<char>, k: int)
    requires
        0 <= k <= s.len(),
    ensures
        is_char_boundary(encode_utf8(s), byte_offset(s, k) as int),
    decreases s.len(),
{
    encode_utf8_valid_utf8(s);
    if k == 0 {
        assert(s.take(0) =~= Seq::<char>::empty());
    } else {
        let bytes = encode_utf8(s);
        encode_utf8_first_scalar(s);
        assert(pop_first_scalar(bytes) =~= encode_utf8(s.drop_first()));
        assert(s.take(k).drop_first() =~= s.drop_first().take(k - 1));
        assert(s.take(k)[0] == s[0]);
        lemma_offset_is_boundary(s.drop_first(), k - 1);
        lemma_offset_strict(s, 0, k);
        encode_utf8_valid_utf8(s.drop_first());
    }
}

/// Every character boundary is the offset of a character (or of the end).
pub proof fn lemma_boundary_is_offset(s: Seq<char>, idx: int)
    requires
        is_char_boundary(encode_utf8(s), idx),
    ensures
        exists|k: int| 0 <= k <= s.len() && byte_offset(s, k) == idx,
    decreases s.len(),
{
    encode_utf8_valid_utf8(s);
    if idx == 0 {
        assert(s.take(0) =~= Seq::<char>::empty());
        assert(byte_offset(s, 0) == 0);
    } else if s.len() == 0 {
        assert(false);
    } else {
        let bytes = encode_utf8(s);
        encode_utf8_first_scalar(s);
        assert(pop_first_scalar(bytes) =~= encode_utf8(s.drop_first()));
        encode_utf8_valid_utf8(s.drop_first());
        let f = length_of_first_scalar(bytes);
        lemma_boundary_is_offset(s.drop_first(), idx - f);
        let k1 = choose|k: int| 0 <= k <= s.drop_first().len() && byte_offset(s.drop_first(), k) == idx - f;
        assert(s.take(k1 + 1).drop_first() =~= s.drop_first().take(k1));
        assert(s.take(k1 + 1)[0] == s[0]);
        assert(byte_offset(s, k1 + 1) == idx);
    }
}

/// A cursor on a boundary has one character index.
pub proof fn lemma_cursor_index(s: Seq<char>, cursor: usize, k: int)
    requires
        cursor_at(s, cursor, k),
    ensures
        char_index(s, cursor) == k,
{
    let j = char_index(s, cursor);
    if j < k {
        lemma_offset_strict(s, j, k);
    } else if k < j {
        lemma_offset_strict(s, k, j);
    }
}

/// The encoding of `s` split at character `k`.
pub proof fn lemma_encode_split(s: Seq<char>, k: int)
    requires
        0 <= k <= s.len(),
    ensures
        encode_utf8(s).take(byte_offset(s, k) as int) == encode_utf8(s.take(k)),
        encode_utf8(s).skip(byte_offset(s, k) as int) == encode_utf8(s.skip(k)),
{
    lemma_encode_concat(s.take(k), s.skip(k));
    assert(s.take(k) + s.skip(k) =~= s);
    assert(encode_utf8(s).take(byte_offset(s, k) as int) =~= encode_utf8(s.take(k)));
    assert(encode_utf8(s).skip(byte_offset(s, k) as int) =~= encode_utf8(s.skip(k)));
}

/// An element occurs in a concatenation exactly when it occurs in one of
/// its two parts.
pub proof fn lemma_contains_concat<A>(a: Seq<A>, b: Seq<A>, c: A)
    ensures
        (a + b).contains(c) <==> (a.contains(c) || b.contains(c)),
{
    if (a + b).contains(c) {
        let k = choose|k: int| 0 <= k < (a + b).len() && (a + b)[k] == c;
        if k < a.len() {
            assert(a[k] == c);
        } else {
            assert(b[k - a.len()] == c);
        }
    }
    if a.contains(c) {
        let k = choose|k: int| 0 <= k < a.len() && a[k] == c;
        assert((a + b)[k] == c);
    }
    if b.contains(c) {
        let k = choose|k: int| 0 <= k < b.len() && b[k] == c;
        assert((a + b)[k + a.len()] == c);
    }
}

/// In valid UTF-8, the byte after a one-byte character that starts on a
/// boundary is a boundary too.
pub proof fn lemma_ascii_next_boundary(bytes: Seq<u8>, j: int)
    requires
        valid_utf8(bytes),
        0 <= j < bytes.len(),
        is_char_boundary(bytes, j),
        bytes[j] < 0x80,
    ensures
        is_char_boundary(bytes, j + 1),
    decreases bytes.len(),
{
    let l = length_of_first_scalar(bytes);
    let rest = pop_first_scalar(bytes);
    assert(valid_utf8(rest));
    assert(1 <= l <= bytes.len());
    if j == 0 {
        assert(l == 1);
        assert(is_char_boundary(rest, 0));
    } else {
        assert(is_char_boundary(rest, j - l));
        assert(rest[j - l] == bytes[j]);
        lemma_ascii_next_boundary(rest, j - l);
    }
}

/// The bytes between two character boundaries of an encoding are the
/// encoding of the characters between them, so they are valid UTF-8.
pub proof fn lemma_between_boundaries(s: Seq<char>, a: int, b: int)
    requires
        a <= b,
        is_char_boundary(encode_utf8(s), a),
        is_char_boundary(encode_utf8(s), b),
    ensures
        valid_utf8(encode_utf8(s).subrange(a, b)),
{
    lemma_boundary_is_offset(s, a);
    lemma_boundary_is_offset(s, b);
    let j = choose|k: int| 0 <= k <= s.len() && byte_offset(s, k) == a;
    let k = choose|k: int| 0 <= k <= s.len() && byte_offset(s, k) == b;
    if k < j {
        lemma_offset_strict(s, k, j);
    }
    lemma_encode_split(s, k);
    lemma_encode_concat(s.take(j), s.subrange(j, k));
    assert(s.take(j) + s.subrange(j, k) =~= s.take(k));
    let whole = encode_utf8(s);
    let head = encode_utf8(s.take(j));
    let mid = encode_utf8(s.subrange(j, k));
    assert(head.len() == a);
    lemma_encode_concat(s.take(k), s.skip(k));
    assert(s.take(k) + s.skip(k) =~= s);
    assert(b <= whole.len());
    assert(whole.take(b) == head + mid);
    assert(whole.subrange(a, b) =~= (head + mid).subrange(a, b));
    assert((head + mid).subrange(a, b) =~= mid);
    encode_utf8_valid_utf8(s.subrange(j, k));
}

/// The number of bytes of a character in UTF-8 (`char::len_utf8`).
pub fn char_len_utf8(c: char) -> (n: usize)
    ensures
        n == encode_utf8(seq![c]).len(),
        1 <= n <= 4,
{
    proof {
        char_is_scalar(c);
        let one = seq![c];
        assert(one[0] == c);
        assert(one.drop_first() =~= Seq::<char>::empty());
        assert(encode_utf8(one.drop_first()) =~= Seq::<u8>::empty());
        assert(encode_utf8(one) == encode_scalar(one[0] as u32) + encode_utf8(one.drop_first()));
        assert(encode_utf8(one) =~= encode_scalar(c as u32));
    }
    let v = c as u32;
    if v < 0x80 {
        1
    } else if v < 0x800 {
        2
    } else if v < 0x10000 {
        3
    } else {
        4
    }
}

/// `String::insert`: the character's encoding goes in at byte `idx`. The
/// standard library panics unless `idx` is on a character boundary.
#[verifier::external_body]
fn string_insert(s: &mut String, idx: usize, c: char)
    requires
        idx <= encode_utf8(old(s)@).len(),
        is_char_boundary(encode_utf8(old(s)@), idx as int),
    ensures
        encode_utf8(final(s)@) == encode_utf8(old(s)@).take(idx as int) + encode_utf8(seq![c]) + encode_utf8(
            old(s)@,
        ).skip(idx as int),
{
    s.insert(idx, c)
}

/// `String::drain` over bytes `start..end`, with what it removes dropped.
/// The standard library panics unless both ends are on character
/// boundaries.
#[verifier::external_body]
fn string_remove_range(s: &mut String, start: usize, end: usize)
    requires
        start <= end <= encode_utf8(old(s)@).len(),
        is_char_boundary(encode_utf8(old(s)@), start as int),
        is_char_boundary(encode_utf8(old(s)@), end as int),
    ensures
        encode_utf8(final(s)@) == encode_utf8(old(s)@).take(start as int) + encode_utf8(old(s)@).skip(end as int),
{
    s.drain(start..end);
}

proof fn lemma_encode_injective(a: Seq<char>, b: Seq<char>)
    requires
        encode_utf8(a) == encode_utf8(b),
    ensures
        a == b,
{
    encode_utf8_decode_utf8(a);
    encode_utf8_decode_utf8(b);
}

/// Inserts `c` before the character at byte `cursor`; the cursor after it.
pub fn insert_at_cursor(s: &mut String, cursor: usize, c: char) -> (next: usize)
    requires
        cursor_ok(old(s)@, cursor),
    ensures
        ({
            let k = char_index(old(s)@, cursor);
            &&& final(s)@ == old(s)@.take(k).push(c) + old(s)@.skip(k)
            &&& cursor_at(final(s)@, next, k + 1)
        }),
{
    let ghost s0 = s@;
    let ghost k = char_index(s0, cursor);
    proof {
        lemma_offset_is_boundary(s0, k);
        if k < s0.len() {
            lemma_offset_strict(s0, k, s0.len() as int);
        } else {
            assert(s0.take(k) =~= s0);
        }
        lemma_encode_split(s0, k);
    }
    let n = char_len_utf8(c);
    string_insert(s, cursor, c);
    let ghost target = s0.take(k).push(c) + s0.skip(k);
    proof {
        lemma_encode_concat(s0.take(k).push(c), s0.skip(k));
        lemma_encode_concat(s0.take(k), seq![c]);
        assert(s0.take(k) + seq![c] =~= s0.take(k).push(c));
        assert(encode_utf8(s@) =~= encode_utf8(target));
        lemma_encode_injective(s@, target);
        assert(s@.take(k + 1) =~= s0.take(k).push(c));
        lemma_encode_concat(s0.take(k), seq![c]);
    }
    let total = s.as_str().as_bytes().len();
    proof {
        assert(encode_utf8(s0.take(k)).len() + encode_utf8(seq![c]).len() <= encode_utf8(s@).len());
    }
    cursor + n
}

/// Removes the character before byte `cursor`; the cursor where it was.
pub fn delete_before_cursor(s: &mut String, cursor: usize) -> (prev: usize)
    requires
        cursor_ok(old(s)@, cursor),
        cursor > 0,
    ensures
        ({
            let k = char_index(old(s)@, cursor);
            &&& k >= 1
            &&& final(s)@ == old(s)@.take(k - 1) + old(s)@.skip(k)
            &&& cursor_at(final(s)@, prev, k - 1)
        }),
{
    let ghost s0 = s@;
    let ghost k = char_index(s0, cursor);
    proof {
        if k == 0 {
            assert(s0.take(0) =~= Seq::<char>::empty());
        }
        lemma_offset_is_boundary(s0, k);
        lemma_offset_is_boundary(s0, k - 1);
        lemma_offset_strict(s0, k - 1, k);
    }
    let p = crate::app::prev_char_boundary(s.as_str(), cursor);
    proof {
        if p != byte_offset(s0, k - 1) {
            if p < byte_offset(s0, k - 1) {
                assert(!is_char_boundary(encode_utf8(s0), byte_offset(s0, k - 1) as int));
            } else {
                lemma_boundary_is_offset(s0, p as int);
                let j = choose|j: int| 0 <= j <= s0.len() && byte_offset(s0, j) == p;
                if j < k - 1 {
                    lemma_offset_strict(s0, j, k - 1);
                } else if j == k - 1 {
                } else if j == k {
                } else {
                    lemma_offset_strict(s0, k, j);
                }
            }
        }
        lemma_encode_split(s0, k - 1);
        lemma_encode_split(s0, k);
        lemma_offset_strict(s0, k - 1, k);
    }
    string_remove_range(s, p, cursor);
    let ghost target = s0.take(k - 1) + s0.skip(k);
    proof {
        lemma_encode_concat(s0.take(k - 1), s0.skip(k));
        assert(encode_utf8(s@) =~= encode_utf8(target));
        lemma_encode_injective(s@, target);
        assert(s@.take(k - 1) =~= s0.take(k - 1));
    }
    p
}

/// Removes the character at byte `cursor`, which stays where it is.
pub fn delete_at_cursor(s: &mut String, cursor: usize)
    requires
        cursor_ok(old(s)@, cursor),
        cursor < encode_utf8(old(s)@).len(),
    ensures
        ({
            let k = char_index(old(s)@, cursor);
            &&& k < old(s)@.len()
            &&& final(s)@ == old(s)@.take(k) + old(s)@.skip(k + 1)
            &&& cursor_at(final(s)@, cursor, k)
        }),
{
    let ghost s0 = s@;
    let ghost k = char_index(s0, cursor);
    proof {
        if k == s0.len() {
            assert(s0.take(k) =~= s0);
        }
        lemma_offset_is_boundary(s0, k);
        lemma_offset_is_boundary(s0, k + 1);
        lemma_offset_strict(s0, k, k + 1);
    }
    let len = s.as_str().as_bytes().len();
    assert(cursor < len);
    let n = crate::app::next_char_boundary(s.as_str(), cursor);
    proof {
        if n != byte_offset(s0, k + 1) {
            if n > byte_offset(s0, k + 1) {
                assert(!is_char_boundary(encode_utf8(s0), byte_offset(s0, k + 1) as int));
            } else {
                lemma_boundary_is_offset(s0, n as int);
                let j = choose|j: int| 0 <= j <= s0.len() && byte_offset(s0, j) == n;
                if j < k {
                    lemma_offset_strict(s0, j, k);
                } else if j == k {
                } else if j < k + 1 {
                } else {
                    lemma_offset_strict(s0, k + 1, j);
                }
            }
        }
        lemma_encode_split(s0, k);
        lemma_encode_split(s0, k + 1);
    }
    string_remove_range(s, cursor, n);
    let ghost target = s0.take(k) + s0.skip(k + 1);
    proof {
        lemma_encode_concat(s0.take(k), s0.skip(k + 1));
        assert(encode_utf8(s@) =~= encode_utf8(target));
        lemma_encode_injective(s@, target);
        assert(s@.take(k) =~= s0.take(k));
    }
}

} // verus!
