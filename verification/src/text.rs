//! Character-level text utilities shared by the parsing and formatting code:
//! conversions between strings and character vectors, digit classification,
//! bounded hex/decimal parsing, and fixed-width hex/decimal rendering.

use vstd::prelude::*;
use vstd::string::*;

verus! {

/// Relies on String::push: appends the given character to the end of the string.
#[verifier::external_body]
pub(crate) fn push_char(s: &mut String, c: char)
    ensures
        final(s)@ == old(s)@.push(c),
{
    s.push(c);
}

/// Collects the characters of a string slice into a vector.
pub fn str_chars(s: &str) -> (r: Vec<char>)
    ensures
        r@ == s@,
{
    let n = s.unicode_len();
    let mut v: Vec<char> = Vec::new();
    let mut i: usize = 0;
    while i < n
        invariant
            i <= n,
            n == s@.len(),
            v@ == s@.subrange(0, i as int),
        decreases n - i,
    {
        v.push(s.get_char(i));
        i = i + 1;
        assert(v@ =~= s@.subrange(0, i as int));
    }
    assert(s@.subrange(0, n as int) =~= s@);
    v
}

/// Collects a character vector back into an owned string.
pub fn chars_to_string(v: &Vec<char>) -> (r: String)
    ensures
        r@ == v@,
{
    let mut s = String::new();
    let mut i: usize = 0;
    while i < v.len()
        invariant
            i <= v.len(),
            s@ == v@.subrange(0, i as int),
        decreases v.len() - i,
    {
        push_char(&mut s, v[i]);
        i = i + 1;
        assert(s@ =~= v@.subrange(0, i as int));
    }
    assert(v@.subrange(0, v.len() as int) =~= v@);
    s
}

// ---------------------------------------------------------------------------
// Digits
// ---------------------------------------------------------------------------

pub open spec fn is_dec_digit(c: char) -> bool {
    '0' <= c && c <= '9'
}

pub open spec fn is_hex_digit(c: char) -> bool {
    is_dec_digit(c) || ('a' <= c && c <= 'f') || ('A' <= c && c <= 'F')
}

/// Numeric value of a hex digit (meaningful only when `is_hex_digit` holds).
pub open spec fn hex_digit_val(c: char) -> nat {
    if is_dec_digit(c) {
        (c as nat - '0' as nat) as nat
    } else if 'a' <= c && c <= 'f' {
        (c as nat - 'a' as nat + 10) as nat
    } else if 'A' <= c && c <= 'F' {
        (c as nat - 'A' as nat + 10) as nat
    } else {
        0
    }
}

pub open spec fn all_hex(t: Seq<char>) -> bool {
    forall|i: int| 0 <= i < t.len() ==> is_hex_digit(#[trigger] t[i])
}

pub open spec fn all_dec(t: Seq<char>) -> bool {
    forall|i: int| 0 <= i < t.len() ==> is_dec_digit(#[trigger] t[i])
}

/// Value of a string of hex digits, most significant first.
pub open spec fn hex_val(t: Seq<char>) -> nat
    decreases t.len(),
{
    if t.len() == 0 {
        0
    } else {
        hex_val(t.drop_last()) * 16 + hex_digit_val(t.last())
    }
}

/// Value of a string of decimal digits, most significant first.
pub open spec fn dec_val(t: Seq<char>) -> nat
    decreases t.len(),
{
    if t.len() == 0 {
        0
    } else {
        dec_val(t.drop_last()) * 10 + (t.last() as nat - '0' as nat) as nat
    }
}

/// A nonempty all-hex-digit token whose value fits a byte.
pub open spec fn parse_hex_u8(t: Seq<char>) -> Option<u8> {
    if t.len() > 0 && all_hex(t) && hex_val(t) <= 0xff {
        Some(hex_val(t) as u8)
    } else {
        None
    }
}

/// A nonempty all-hex-digit token whose value fits 32 bits.
pub open spec fn parse_hex_u32(t: Seq<char>) -> Option<u32> {
    if t.len() > 0 && all_hex(t) && hex_val(t) <= 0xffff_ffff {
        Some(hex_val(t) as u32)
    } else {
        None
    }
}

/// A nonempty all-decimal token whose value fits a byte.
pub open spec fn parse_dec_u8(t: Seq<char>) -> Option<u8> {
    if t.len() > 0 && all_dec(t) && dec_val(t) <= 0xff {
        Some(dec_val(t) as u8)
    } else {
        None
    }
}

/// A nonempty all-decimal token whose value fits 64 bits.
pub open spec fn parse_dec_u64(t: Seq<char>) -> Option<u64> {
    if t.len() > 0 && all_dec(t) && dec_val(t) <= 0xffff_ffff_ffff_ffff {
        Some(dec_val(t) as u64)
    } else {
        None
    }
}

fn hex_digit_value(c: char) -> (r: Option<u8>)
    ensures
        r is Some <==> is_hex_digit(c),
        r matches Some(v) ==> v == hex_digit_val(c),
{
    if '0' <= c && c <= '9' {
        Some((c as u8) - 48)
    } else if 'a' <= c && c <= 'f' {
        Some((c as u8) - 97 + 10)
    } else if 'A' <= c && c <= 'F' {
        Some((c as u8) - 65 + 10)
    } else {
        None
    }
}

/// Parses a hex-digit token into a byte, as `parse_hex_u8` describes.
pub fn hex_u8(t: &[char]) -> (r: Option<u8>)
    ensures
        r == parse_hex_u8(t@),
{
    if t.len() == 0 {
        return None;
    }
    // `acc` tracks the value of the prefix read so far, saturated at 0x100.
    let mut acc: u32 = 0;
    let mut i: usize = 0;
    while i < t.len()
        invariant
            i <= t.len(),
            all_hex(t@.subrange(0, i as int)),
            hex_val(t@.subrange(0, i as int)) <= 0xff ==> acc == hex_val(t@.subrange(0, i as int)),
            hex_val(t@.subrange(0, i as int)) > 0xff ==> acc == 0x100,
            acc <= 0x100,
        decreases t.len() - i,
    {
        let ghost pre = t@.subrange(0, i as int);
        match hex_digit_value(t[i]) {
            None => {
                assert(!all_hex(t@)) by {
                    assert(!is_hex_digit(t@[i as int]));
                }
                return None;
            },
            Some(d) => {
                let ghost post = t@.subrange(0, i as int + 1);
                assert(post.drop_last() =~= pre);
                assert(post.last() == t@[i as int]);
                if acc > 0xff {
                    acc = 0x100;
                } else {
                    acc = acc * 16 + (d as u32);
                    if acc > 0xff {
                        acc = 0x100;
                    }
                }
                i = i + 1;
            },
        }
    }
    assert(t@.subrange(0, t.len() as int) =~= t@);
    if acc > 0xff {
        None
    } else {
        Some(acc as u8)
    }
}

/// Parses a hex-digit token into a 32-bit value, as `parse_hex_u32` describes.
pub fn hex_u32(t: &[char]) -> (r: Option<u32>)
    ensures
        r == parse_hex_u32(t@),
{
    if t.len() == 0 {
        return None;
    }
    // `acc` tracks the value of the prefix read so far, saturated just above u32::MAX.
    let mut acc: u64 = 0;
    let mut i: usize = 0;
    while i < t.len()
        invariant
            i <= t.len(),
            all_hex(t@.subrange(0, i as int)),
            hex_val(t@.subrange(0, i as int)) <= 0xffff_ffff ==> acc == hex_val(
                t@.subrange(0, i as int),
            ),
            hex_val(t@.subrange(0, i as int)) > 0xffff_ffff ==> acc == 0x1_0000_0000,
            acc <= 0x1_0000_0000,
        decreases t.len() - i,
    {
        let ghost pre = t@.subrange(0, i as int);
        match hex_digit_value(t[i]) {
            None => {
                assert(!all_hex(t@)) by {
                    assert(!is_hex_digit(t@[i as int]));
                }
                return None;
            },
            Some(d) => {
                let ghost post = t@.subrange(0, i as int + 1);
                assert(post.drop_last() =~= pre);
                assert(post.last() == t@[i as int]);
                if acc > 0xffff_ffff {
                    acc = 0x1_0000_0000;
                } else {
                    acc = acc * 16 + (d as u64);
                    if acc > 0xffff_ffff {
                        acc = 0x1_0000_0000;
                    }
                }
                i = i + 1;
            },
        }
    }
    assert(t@.subrange(0, t.len() as int) =~= t@);
    if acc > 0xffff_ffff {
        None
    } else {
        Some(acc as u32)
    }
}

/// Parses a decimal token into a byte, as `parse_dec_u8` describes.
pub fn dec_u8(t: &[char]) -> (r: Option<u8>)
    ensures
        r == parse_dec_u8(t@),
{
    if t.len() == 0 {
        return None;
    }
    let mut acc: u32 = 0;
    let mut i: usize = 0;
    while i < t.len()
        invariant
            i <= t.len(),
            all_dec(t@.subrange(0, i as int)),
            dec_val(t@.subrange(0, i as int)) <= 0xff ==> acc == dec_val(t@.subrange(0, i as int)),
            dec_val(t@.subrange(0, i as int)) > 0xff ==> acc == 0x100,
            acc <= 0x100,
        decreases t.len() - i,
    {
        let ghost pre = t@.subrange(0, i as int);
        let c = t[i];
        if !('0' <= c && c <= '9') {
            assert(!all_dec(t@)) by {
                assert(!is_dec_digit(t@[i as int]));
            }
            return None;
        }
        let d: u8 = (c as u8) - 48;
        let ghost post = t@.subrange(0, i as int + 1);
        assert(post.drop_last() =~= pre);
        assert(post.last() == t@[i as int]);
        if acc > 0xff {
            acc = 0x100;
        } else {
            acc = acc * 10 + (d as u32);
            if acc > 0xff {
                acc = 0x100;
            }
        }
        i = i + 1;
    }
    assert(t@.subrange(0, t.len() as int) =~= t@);
    if acc > 0xff {
        None
    } else {
        Some(acc as u8)
    }
}

/// Parses a decimal token into a 64-bit counter, as `parse_dec_u64` describes.
pub fn dec_u64(t: &[char]) -> (r: Option<u64>)
    ensures
        r == parse_dec_u64(t@),
{
    if t.len() == 0 {
        return None;
    }
    // `acc` tracks the prefix value; `over` records that it has exceeded u64::MAX.
    let mut acc: u64 = 0;
    let mut over: bool = false;
    let mut i: usize = 0;
    while i < t.len()
        invariant
            i <= t.len(),
            all_dec(t@.subrange(0, i as int)),
            !over ==> acc == dec_val(t@.subrange(0, i as int)),
            over <==> dec_val(t@.subrange(0, i as int)) > 0xffff_ffff_ffff_ffff,
        decreases t.len() - i,
    {
        let ghost pre = t@.subrange(0, i as int);
        let c = t[i];
        if !('0' <= c && c <= '9') {
            assert(!all_dec(t@)) by {
                assert(!is_dec_digit(t@[i as int]));
            }
            return None;
        }
        let d: u8 = (c as u8) - 48;
        let ghost post = t@.subrange(0, i as int + 1);
        assert(post.drop_last() =~= pre);
        assert(post.last() == t@[i as int]);
        if !over {
            let wide: u128 = (acc as u128) * 10 + (d as u128);
            if wide > 0xffff_ffff_ffff_ffff {
                over = true;
            } else {
                acc = wide as u64;
            }
        } else {
            assert(dec_val(post) == dec_val(pre) * 10 + (post.last() as nat - '0' as nat));
        }
        i = i + 1;
    }
    assert(t@.subrange(0, t.len() as int) =~= t@);
    if over {
        None
    } else {
        Some(acc)
    }
}

// ---------------------------------------------------------------------------
// Rendering
// ---------------------------------------------------------------------------

/// Lowercase hex digit for a value below 16.
pub open spec fn hex_digit_char(n: nat) -> char {
    if n < 10 {
        ((48 + n) as u8) as char
    } else {
        ((87 + n) as u8) as char
    }
}

/// Two-digit lowercase hex rendering of a byte.
pub open spec fn hex2(b: u8) -> Seq<char> {
    seq![hex_digit_char(b as nat / 16), hex_digit_char(b as nat % 16)]
}

/// Decimal rendering of a byte, without leading zeros.
pub open spec fn dec_u8_str(b: u8) -> Seq<char> {
    if b < 10 {
        seq![hex_digit_char(b as nat)]
    } else if b < 100 {
        seq![hex_digit_char(b as nat / 10), hex_digit_char(b as nat % 10)]
    } else {
        seq![
            hex_digit_char(b as nat / 100),
            hex_digit_char((b as nat / 10) % 10),
            hex_digit_char(b as nat % 10),
        ]
    }
}

fn hex_digit_render(n: u8) -> (c: char)
    requires
        n < 16,
    ensures
        c == hex_digit_char(n as nat),
{
    if n < 10 {
        (48 + n) as char
    } else {
        (87 + n) as char
    }
}

/// Appends the two-digit lowercase hex form of `b`.
pub fn push_hex2(s: &mut String, b: u8)
    ensures
        final(s)@ == old(s)@ + hex2(b),
{
    push_char(s, hex_digit_render(b / 16));
    push_char(s, hex_digit_render(b % 16));
    assert(final(s)@ =~= old(s)@ + hex2(b));
}

/// Appends the decimal form of `b`, without leading zeros.
pub fn push_dec_u8(s: &mut String, b: u8)
    ensures
        final(s)@ == old(s)@ + dec_u8_str(b),
{
    if b < 10 {
        push_char(s, hex_digit_render(b));
    } else if b < 100 {
        push_char(s, hex_digit_render(b / 10));
        push_char(s, hex_digit_render(b % 10));
    } else {
        push_char(s, hex_digit_render(b / 100));
        push_char(s, hex_digit_render((b / 10) % 10));
        push_char(s, hex_digit_render(b % 10));
    }
    assert(final(s)@ =~= old(s)@ + dec_u8_str(b));
}

} // verus!

verus! {

// ---------------------------------------------------------------------------
// Splitting and joining
// ---------------------------------------------------------------------------

/// Tokens of `s` split on the separator `sep`; always at least one token,
/// and empty tokens are kept (the behaviour of splitting on a single char).
pub open spec fn split_on(s: Seq<char>, sep: char) -> Seq<Seq<char>>
    decreases s.len(),
{
    if s.len() == 0 {
        seq![Seq::<char>::empty()]
    } else if s.last() == sep {
        split_on(s.drop_last(), sep).push(Seq::<char>::empty())
    } else {
        let r = split_on(s.drop_last(), sep);
        r.update(r.len() - 1, r.last().push(s.last()))
    }
}

pub proof fn lemma_split_on_len(s: Seq<char>, sep: char)
    ensures
        split_on(s, sep).len() >= 1,
    decreases s.len(),
{
    if s.len() > 0 {
        lemma_split_on_len(s.drop_last(), sep);
    }
}

/// The tokens joined with a single separator between them.
pub open spec fn join_with(parts: Seq<Seq<char>>, sep: char) -> Seq<char>
    decreases parts.len(),
{
    if parts.len() == 0 {
        Seq::<char>::empty()
    } else if parts.len() == 1 {
        parts[0]
    } else {
        join_with(parts.drop_last(), sep) + seq![sep] + parts.last()
    }
}

/// Splits a character vector on a separator character.
pub fn split_char(v: &Vec<char>, sep: char) -> (r: Vec<Vec<char>>)
    ensures
        r.deep_view() == split_on(v@, sep),
        r.len() >= 1,
{
    let mut r: Vec<Vec<char>> = Vec::new();
    r.push(Vec::new());
    assert(r.deep_view() =~~= split_on(v@.subrange(0, 0), sep));
    let mut i: usize = 0;
    while i < v.len()
        invariant
            i <= v.len(),
            r.len() >= 1,
            r.deep_view() == split_on(v@.subrange(0, i as int), sep),
        decreases v.len() - i,
    {
        let ghost pre = v@.subrange(0, i as int);
        let ghost post = v@.subrange(0, i as int + 1);
        assert(post.drop_last() =~= pre);
        assert(post.last() == v@[i as int]);
        let c = v[i];
        if c == sep {
            r.push(Vec::new());
            assert(r.deep_view() =~~= split_on(pre, sep).push(Seq::<char>::empty()));
        } else {
            let mut last = r.pop().unwrap();
            last.push(c);
            r.push(last);
            proof {
                let s = split_on(pre, sep);
                assert(r.deep_view() =~~= s.update(s.len() - 1, s.last().push(c)));
            }
        }
        i = i + 1;
    }
    assert(v@.subrange(0, v.len() as int) =~= v@);
    r
}

/// Joins tokens with a single separator character.
pub fn join_char(parts: &Vec<Vec<char>>, sep: char) -> (r: String)
    ensures
        r@ == join_with(parts.deep_view(), sep),
{
    let mut s = String::new();
    let mut i: usize = 0;
    while i < parts.len()
        invariant
            i <= parts.len(),
            s@ == join_with(parts.deep_view().subrange(0, i as int), sep),
        decreases parts.len() - i,
    {
        let ghost pre = parts.deep_view().subrange(0, i as int);
        let ghost post = parts.deep_view().subrange(0, i as int + 1);
        assert(post.drop_last() =~= pre);
        assert(post.last() =~~= parts.deep_view()[i as int]);
        if i > 0 {
            push_char(&mut s, sep);
        }
        let part = &parts[i];
        let mut j: usize = 0;
        let ghost base = s@;
        while j < part.len()
            invariant
                j <= part.len(),
                s@ == base + part@.subrange(0, j as int),
            decreases part.len() - j,
        {
            push_char(&mut s, part[j]);
            j = j + 1;
            assert(s@ =~= base + part@.subrange(0, j as int));
        }
        assert(part@.subrange(0, part.len() as int) =~= part@);
        proof {
            if i == 0 {
                assert(s@ =~= join_with(post, sep));
            } else {
                assert(s@ =~= join_with(pre, sep) + seq![sep] + post.last());
                assert(s@ =~= join_with(post, sep));
            }
        }
        i = i + 1;
    }
    assert(parts.deep_view().subrange(0, parts.len() as int) =~~= parts.deep_view());
    s
}

} // verus!

verus! {

// ---------------------------------------------------------------------------
// Searching
// ---------------------------------------------------------------------------

/// Index of the first occurrence of `c` in `s`, if any.
pub open spec fn find_first(s: Seq<char>, c: char) -> Option<int>
    decreases s.len(),
{
    if s.len() == 0 {
        None
    } else if s[0] == c {
        Some(0)
    } else {
        match find_first(s.drop_first(), c) {
            Some(i) => Some(i + 1),
            None => None,
        }
    }
}

pub proof fn lemma_find_first(s: Seq<char>, c: char)
    ensures
        match find_first(s, c) {
            Some(i) => 0 <= i < s.len() && s[i] == c && (forall|j: int|
                0 <= j < i ==> s[j] != c),
            None => forall|j: int| 0 <= j < s.len() ==> s[j] != c,
        },
    decreases s.len(),
{
    if s.len() > 0 && s[0] != c {
        lemma_find_first(s.drop_first(), c);
        let sd = s.drop_first();
        match find_first(sd, c) {
            Some(i) => {
                assert(s[i + 1] == sd[i]);
                assert forall|j: int| 0 <= j < i + 1 implies s[j] != c by {
                    if j > 0 {
                        assert(sd[j - 1] == s[j]);
                    }
                }
            },
            None => {
                assert forall|j: int| 0 <= j < s.len() implies s[j] != c by {
                    if j > 0 {
                        assert(sd[j - 1] == s[j]);
                    }
                }
            },
        }
    }
}

/// Finds the first occurrence of `c`, as `find_first` describes.
pub fn find_char(v: &Vec<char>, c: char) -> (r: Option<usize>)
    ensures
        match r {
            Some(i) => find_first(v@, c) == Some(i as int),
            None => find_first(v@, c) is None,
        },
{
    let mut i: usize = 0;
    while i < v.len()
        invariant
            i <= v.len(),
            forall|j: int| 0 <= j < i ==> v@[j] != c,
        decreases v.len() - i,
    {
        if v[i] == c {
            proof {
                lemma_find_first_unique(v@, c, i as int);
            }
            return Some(i);
        }
        i = i + 1;
    }
    proof {
        lemma_find_first(v@, c);
    }
    None
}

proof fn lemma_find_first_unique(s: Seq<char>, c: char, i: int)
    requires
        0 <= i < s.len(),
        s[i] == c,
        forall|j: int| 0 <= j < i ==> s[j] != c,
    ensures
        find_first(s, c) == Some(i),
    decreases s.len(),
{
    if i > 0 {
        lemma_find_first_unique(s.drop_first(), c, i - 1);
    }
}

/// Whether `needle` occurs as a contiguous run inside `hay`.
pub open spec fn contains_seq(hay: Seq<char>, needle: Seq<char>) -> bool {
    exists|k: int|
        0 <= k && k + needle.len() <= hay.len() && #[trigger] hay.subrange(k, k + needle.len())
            == needle
}

/// Substring search, as `contains_seq` describes.
pub fn contains_sub(hay: &Vec<char>, needle: &Vec<char>) -> (r: bool)
    ensures
        r == contains_seq(hay@, needle@),
{
    let n = hay.len();
    let m = needle.len();
    if m > n {
        assert(!contains_seq(hay@, needle@));
        return false;
    }
    if m == 0 {
        assert(contains_seq(hay@, needle@)) by {
            assert(hay@.subrange(0, 0 + needle@.len() as int) =~= needle@);
        }
        return true;
    }
    let mut k: usize = 0;
    while k <= n - m
        invariant
            0 < m <= n,
            n == hay@.len(),
            m == needle@.len(),
            k <= n - m + 1,
            forall|k2: int|
                0 <= k2 < k ==> #[trigger] hay@.subrange(k2, k2 + needle@.len()) != needle@,
        decreases n - k,
    {
        if matches_at(hay, needle, k) {
            return true;
        }
        k = k + 1;
    }
    assert(!contains_seq(hay@, needle@));
    false
}

// ---------------------------------------------------------------------------
// Prefixes and trimming
// ---------------------------------------------------------------------------

pub open spec fn has_prefix(s: Seq<char>, p: Seq<char>) -> bool {
    s.len() >= p.len() && s.subrange(0, p.len() as int) == p
}

/// `s` with every leading repetition of the (nonempty) prefix `p` removed.
pub open spec fn strip_prefix_rec(s: Seq<char>, p: Seq<char>) -> Seq<char>
    decreases s.len(),
{
    if p.len() > 0 && has_prefix(s, p) && s.len() >= p.len() {
        if s.len() == p.len() {
            Seq::<char>::empty()
        } else {
            strip_prefix_rec(s.subrange(p.len() as int, s.len() as int), p)
        }
    } else {
        s
    }
}

/// Whether `v` starts with `p`.
pub fn starts_with(v: &[char], p: &[char]) -> (r: bool)
    ensures
        r == has_prefix(v@, p@),
{
    if p.len() > v.len() {
        return false;
    }
    let mut i: usize = 0;
    while i < p.len()
        invariant
            p.len() <= v.len(),
            i <= p.len(),
            forall|j: int| 0 <= j < i ==> v@[j] == p@[j],
        decreases p.len() - i,
    {
        if v[i] != p[i] {
            assert(v@.subrange(0, p@.len() as int)[i as int] != p@[i as int]);
            return false;
        }
        i = i + 1;
    }
    assert(v@.subrange(0, p@.len() as int) =~= p@);
    true
}

/// Whether `p` occurs in `v` starting at position `start`.
fn matches_at(v: &Vec<char>, p: &Vec<char>, start: usize) -> (r: bool)
    requires
        start + p@.len() <= v@.len(),
    ensures
        r == (v@.subrange(start as int, start + p@.len()) == p@),
{
    let n = v.len();
    let mut i: usize = 0;
    while i < p.len()
        invariant
            start + p@.len() <= n,
            n == v@.len(),
            i <= p.len(),
            forall|j: int| 0 <= j < i ==> v@[start + j] == p@[j],
        decreases p.len() - i,
    {
        if v[start + i] != p[i] {
            assert(v@.subrange(start as int, start + p@.len())[i as int] != p@[i as int]);
            return false;
        }
        i = i + 1;
    }
    assert(v@.subrange(start as int, start + p@.len()) =~= p@);
    true
}

/// Removes every leading repetition of `p`, as `strip_prefix_rec` describes.
pub fn strip_prefix_repeated(v: &Vec<char>, p: &Vec<char>) -> (r: Vec<char>)
    requires
        p@.len() > 0,
    ensures
        r@ == strip_prefix_rec(v@, p@),
{
    let mut start: usize = 0;
    assert(v@.subrange(0, v@.len() as int) =~= v@);
    while p.len() <= v.len() - start && matches_at(v, p, start)
        invariant
            start <= v.len(),
            p@.len() > 0,
            strip_prefix_rec(v@, p@) == strip_prefix_rec(
                v@.subrange(start as int, v@.len() as int),
                p@,
            ),
        decreases v.len() - start,
    {
        proof {
            let rest = v@.subrange(start as int, v@.len() as int);
            assert(rest.subrange(0, p@.len() as int) =~= v@.subrange(
                start as int,
                start + p@.len(),
            ));
            assert(has_prefix(rest, p@));
            if rest.len() == p@.len() {
                assert(v@.subrange(start + p@.len(), v@.len() as int) =~= Seq::<char>::empty());
            } else {
                assert(rest.subrange(p@.len() as int, rest.len() as int) =~= v@.subrange(
                    start + p@.len(),
                    v@.len() as int,
                ));
            }
        }
        start = start + p.len();
    }
    proof {
        let rest = v@.subrange(start as int, v@.len() as int);
        if rest.len() >= p@.len() {
            // the scan stopped on a mismatch, so `rest` does not start with `p`
            assert(rest.subrange(0, p@.len() as int) =~= v@.subrange(
                start as int,
                start + p@.len(),
            ));
        }
    }
    let mut r: Vec<char> = Vec::new();
    let mut i: usize = start;
    while i < v.len()
        invariant
            start <= i <= v.len(),
            r@ == v@.subrange(start as int, i as int),
        decreases v.len() - i,
    {
        r.push(v[i]);
        i = i + 1;
        assert(r@ =~= v@.subrange(start as int, i as int));
    }
    assert(r@ =~= v@.subrange(start as int, v@.len() as int));
    r
}

pub open spec fn is_space(c: char) -> bool {
    c == ' ' || c == '\t' || c == '\r' || c == '\n'
}

/// `s` without leading whitespace.
pub open spec fn trim_start_spec(s: Seq<char>) -> Seq<char>
    decreases s.len(),
{
    if s.len() > 0 && is_space(s[0]) {
        trim_start_spec(s.drop_first())
    } else {
        s
    }
}

/// `s` without trailing whitespace.
pub open spec fn trim_end_spec(s: Seq<char>) -> Seq<char>
    decreases s.len(),
{
    if s.len() > 0 && is_space(s.last()) {
        trim_end_spec(s.drop_last())
    } else {
        s
    }
}

pub open spec fn trim_spec(s: Seq<char>) -> Seq<char> {
    trim_end_spec(trim_start_spec(s))
}

fn space_char(c: char) -> (r: bool)
    ensures
        r == is_space(c),
{
    c == ' ' || c == '\t' || c == '\r' || c == '\n'
}

/// Removes leading and trailing whitespace, as `trim_spec` describes.
pub fn trim_chars(v: &Vec<char>) -> (r: Vec<char>)
    ensures
        r@ == trim_spec(v@),
{
    let mut start: usize = 0;
    assert(v@.subrange(0, v@.len() as int) =~= v@);
    while start < v.len() && space_char(v[start])
        invariant
            start <= v.len(),
            trim_start_spec(v@) == trim_start_spec(v@.subrange(start as int, v@.len() as int)),
        decreases v.len() - start,
    {
        proof {
            let rest = v@.subrange(start as int, v@.len() as int);
            assert(rest.drop_first() =~= v@.subrange(start + 1, v@.len() as int));
        }
        start = start + 1;
    }
    proof {
        let rest = v@.subrange(start as int, v@.len() as int);
        assert(trim_start_spec(rest) == rest);
    }
    let mut end: usize = v.len();
    while end > start && space_char(v[end - 1])
        invariant
            start <= end <= v.len(),
            trim_start_spec(v@) == v@.subrange(start as int, v@.len() as int),
            trim_end_spec(v@.subrange(start as int, v@.len() as int)) == trim_end_spec(
                v@.subrange(start as int, end as int),
            ),
        decreases end,
    {
        proof {
            let cur = v@.subrange(start as int, end as int);
            assert(cur.drop_last() =~= v@.subrange(start as int, end - 1));
        }
        end = end - 1;
    }
    proof {
        let cur = v@.subrange(start as int, end as int);
        assert(trim_end_spec(cur) == cur);
    }
    let mut r: Vec<char> = Vec::new();
    let mut i: usize = start;
    while i < end
        invariant
            start <= i <= end <= v.len(),
            r@ == v@.subrange(start as int, i as int),
        decreases end - i,
    {
        r.push(v[i]);
        i = i + 1;
        assert(r@ =~= v@.subrange(start as int, i as int));
    }
    assert(r@ =~= v@.subrange(start as int, end as int));
    r
}

// ---------------------------------------------------------------------------
// Whitespace splitting
// ---------------------------------------------------------------------------

/// Helper for `split_ws`: completed tokens of `s` plus the pending token.
pub open spec fn split_ws_rec(s: Seq<char>) -> (Seq<Seq<char>>, Seq<char>)
    decreases s.len(),
{
    if s.len() == 0 {
        (Seq::<Seq<char>>::empty(), Seq::<char>::empty())
    } else {
        let (toks, cur) = split_ws_rec(s.drop_last());
        if is_space(s.last()) {
            if cur.len() == 0 {
                (toks, Seq::<char>::empty())
            } else {
                (toks.push(cur), Seq::<char>::empty())
            }
        } else {
            (toks, cur.push(s.last()))
        }
    }
}

/// Maximal nonempty runs of non-whitespace characters, in order.
pub open spec fn split_ws(s: Seq<char>) -> Seq<Seq<char>> {
    let (toks, cur) = split_ws_rec(s);
    if cur.len() == 0 {
        toks
    } else {
        toks.push(cur)
    }
}

/// Splits on whitespace runs, as `split_ws` describes.
pub fn split_whitespace_chars(v: &Vec<char>) -> (r: Vec<Vec<char>>)
    ensures
        r.deep_view() == split_ws(v@),
{
    let mut toks: Vec<Vec<char>> = Vec::new();
    let mut cur: Vec<char> = Vec::new();
    let mut i: usize = 0;
    while i < v.len()
        invariant
            i <= v.len(),
            (toks.deep_view(), cur@) == split_ws_rec(v@.subrange(0, i as int)),
        decreases v.len() - i,
    {
        let ghost pre = v@.subrange(0, i as int);
        let ghost post = v@.subrange(0, i as int + 1);
        assert(post.drop_last() =~= pre);
        assert(post.last() == v@[i as int]);
        let c = v[i];
        if space_char(c) {
            if cur.len() > 0 {
                toks.push(cur);
                cur = Vec::new();
            }
        } else {
            cur.push(c);
        }
        proof {
            let (t2, c2) = split_ws_rec(post);
            assert(toks.deep_view() =~~= t2);
            assert(cur@ =~= c2);
        }
        i = i + 1;
    }
    assert(v@.subrange(0, v.len() as int) =~= v@);
    if cur.len() > 0 {
        toks.push(cur);
    }
    assert(toks.deep_view() =~~= split_ws(v@));
    toks
}

} // verus!

verus! {

// ---------------------------------------------------------------------------
// Splitting is the inverse of joining
// ---------------------------------------------------------------------------

/// Splitting a separator-free string yields just that string.
pub proof fn lemma_split_no_sep(t: Seq<char>, sep: char)
    requires
        !t.contains(sep),
    ensures
        split_on(t, sep) == seq![t],
    decreases t.len(),
{
    if t.len() == 0 {
        assert(split_on(t, sep) =~~= seq![t]);
    } else {
        assert(t.last() != sep);
        assert(!t.drop_last().contains(sep)) by {
            if t.drop_last().contains(sep) {
                let i = choose|i: int| 0 <= i < t.drop_last().len() && t.drop_last()[i] == sep;
                assert(t[i] == sep);
            }
        }
        lemma_split_no_sep(t.drop_last(), sep);
        let r = split_on(t.drop_last(), sep);
        assert(r == seq![t.drop_last()]);
        assert(r.update(r.len() - 1, r.last().push(t.last())) =~~= seq![t]);
    }
}

/// Appending a separator and a separator-free token appends one token to
/// the split.
pub proof fn lemma_split_sep_append(s: Seq<char>, t: Seq<char>, sep: char)
    requires
        !t.contains(sep),
    ensures
        split_on(s + seq![sep] + t, sep) == split_on(s, sep).push(t),
    decreases t.len(),
{
    if t.len() == 0 {
        let u = s + seq![sep] + t;
        assert(u.len() > 0 && u.last() == sep);
        assert(u.drop_last() =~= s);
        assert(split_on(u, sep) =~~= split_on(s, sep).push(t));
    } else {
        assert(t.last() != sep);
        assert(!t.drop_last().contains(sep)) by {
            if t.drop_last().contains(sep) {
                let i = choose|i: int| 0 <= i < t.drop_last().len() && t.drop_last()[i] == sep;
                assert(t[i] == sep);
            }
        }
        lemma_split_sep_append(s, t.drop_last(), sep);
        let u = s + seq![sep] + t;
        assert(u.len() > 0 && u.last() == t.last());
        assert(u.drop_last() =~= s + seq![sep] + t.drop_last());
        let r = split_on(u.drop_last(), sep);
        assert(r == split_on(s, sep).push(t.drop_last()));
        lemma_split_on_len(s, sep);
        assert(r.last() == t.drop_last());
        assert(r.update(r.len() - 1, r.last().push(t.last())) =~~= split_on(s, sep).push(t));
    }
}

/// Splitting the join of separator-free tokens recovers the tokens.
pub proof fn lemma_split_join(parts: Seq<Seq<char>>, sep: char)
    requires
        parts.len() >= 1,
        forall|i: int| 0 <= i < parts.len() ==> !(#[trigger] parts[i]).contains(sep),
    ensures
        split_on(join_with(parts, sep), sep) == parts,
    decreases parts.len(),
{
    if parts.len() == 1 {
        lemma_split_no_sep(parts[0], sep);
        assert(split_on(join_with(parts, sep), sep) =~~= parts);
    } else {
        lemma_split_join(parts.drop_last(), sep);
        lemma_split_sep_append(join_with(parts.drop_last(), sep), parts.last(), sep);
        assert(split_on(join_with(parts, sep), sep) =~~= parts);
    }
}

} // verus!

verus! {

/// Index of the first token that starts with `key`, if any.
pub open spec fn first_with_prefix(lines: Seq<Seq<char>>, key: Seq<char>) -> Option<int>
    decreases lines.len(),
{
    if lines.len() == 0 {
        None
    } else if has_prefix(lines[0], key) {
        Some(0)
    } else {
        match first_with_prefix(lines.drop_first(), key) {
            Some(i) => Some(i + 1),
            None => None,
        }
    }
}

pub proof fn lemma_first_with_prefix_unique(lines: Seq<Seq<char>>, key: Seq<char>, i: int)
    requires
        0 <= i < lines.len(),
        has_prefix(lines[i], key),
        forall|j: int| 0 <= j < i ==> !has_prefix(#[trigger] lines[j], key),
    ensures
        first_with_prefix(lines, key) == Some(i),
    decreases lines.len(),
{
    if i > 0 {
        lemma_first_with_prefix_unique(lines.drop_first(), key, i - 1);
    }
}

pub proof fn lemma_first_with_prefix_none(lines: Seq<Seq<char>>, key: Seq<char>)
    requires
        forall|j: int| 0 <= j < lines.len() ==> !has_prefix(#[trigger] lines[j], key),
    ensures
        first_with_prefix(lines, key) is None,
    decreases lines.len(),
{
    if lines.len() > 0 {
        lemma_first_with_prefix_none(lines.drop_first(), key);
    }
}

} // verus!

verus! {

/// Whether two character vectors hold the same characters.
pub fn chars_eq(a: &Vec<char>, b: &Vec<char>) -> (r: bool)
    ensures
        r == (a@ == b@),
{
    if a.len() != b.len() {
        assert(a@ != b@);
        return false;
    }
    let mut i: usize = 0;
    while i < a.len()
        invariant
            a@.len() == b@.len(),
            i <= a.len(),
            forall|j: int| 0 <= j < i ==> a@[j] == b@[j],
        decreases a.len() - i,
    {
        if a[i] != b[i] {
            return false;
        }
        i = i + 1;
    }
    assert(a@ =~= b@);
    true
}

/// Whether two string slices hold the same characters.
pub fn str_eq(a: &str, b: &str) -> (r: bool)
    ensures
        r == (a@ == b@),
{
    let av = str_chars(a);
    let bv = str_chars(b);
    chars_eq(&av, &bv)
}

// ---------------------------------------------------------------------------
// Bit counting
// ---------------------------------------------------------------------------

/// Number of set bits in the binary representation of `n`.
pub open spec fn pop_bits(n: nat) -> nat
    decreases n,
{
    if n == 0 {
        0
    } else {
        n % 2 + pop_bits(n / 2)
    }
}

pub proof fn lemma_pop_bits_le(n: nat)
    ensures
        pop_bits(n) <= n,
    decreases n,
{
    if n > 0 {
        lemma_pop_bits_le(n / 2);
    }
}

/// Counts the set bits of a 32-bit value, as `pop_bits` describes.
pub fn count_bits_u32(v: u32) -> (r: u32)
    ensures
        r == pop_bits(v as nat),
{
    proof {
        lemma_pop_bits_le(v as nat);
    }
    let mut x: u32 = v;
    let mut c: u32 = 0;
    while x > 0
        invariant
            c + pop_bits(x as nat) == pop_bits(v as nat),
            pop_bits(v as nat) <= v,
        decreases x,
    {
        c = c + x % 2;
        x = x / 2;
    }
    c
}

/// Counts the set bits of a byte, as `pop_bits` describes.
pub fn count_bits_u8(v: u8) -> (r: u8)
    ensures
        r == pop_bits(v as nat),
        r <= v,
{
    proof {
        lemma_pop_bits_le(v as nat);
    }
    let mut x: u8 = v;
    let mut c: u8 = 0;
    while x > 0
        invariant
            c + pop_bits(x as nat) == pop_bits(v as nat),
            c + x <= v,
        decreases x,
    {
        proof {
            lemma_pop_bits_le(x as nat);
        }
        c = c + x % 2;
        x = x / 2;
    }
    c
}

} // verus!

verus! {

/// `s` with every trailing repetition of the character `c` removed.
pub open spec fn strip_char_end(s: Seq<char>, c: char) -> Seq<char>
    decreases s.len(),
{
    if s.len() > 0 && s.last() == c {
        strip_char_end(s.drop_last(), c)
    } else {
        s
    }
}

/// Removes trailing repetitions of `c`, as `strip_char_end` describes.
pub fn strip_trailing(v: &Vec<char>, c: char) -> (r: Vec<char>)
    ensures
        r@ == strip_char_end(v@, c),
{
    let mut end: usize = v.len();
    assert(v@.subrange(0, v@.len() as int) =~= v@);
    while end > 0 && v[end - 1] == c
        invariant
            end <= v.len(),
            strip_char_end(v@, c) == strip_char_end(v@.subrange(0, end as int), c),
        decreases end,
    {
        proof {
            let cur = v@.subrange(0, end as int);
            assert(cur.drop_last() =~= v@.subrange(0, end - 1));
        }
        end = end - 1;
    }
    proof {
        let cur = v@.subrange(0, end as int);
        assert(strip_char_end(cur, c) == cur);
    }
    let mut r: Vec<char> = Vec::new();
    let mut i: usize = 0;
    while i < end
        invariant
            i <= end <= v.len(),
            r@ == v@.subrange(0, i as int),
        decreases end - i,
    {
        r.push(v[i]);
        i = i + 1;
        assert(r@ =~= v@.subrange(0, i as int));
    }
    assert(r@ =~= v@.subrange(0, end as int));
    r
}

} // verus!

verus! {

/// `s` with every leading repetition of the character `c` removed.
pub open spec fn strip_char_start(s: Seq<char>, c: char) -> Seq<char>
    decreases s.len(),
{
    if s.len() > 0 && s[0] == c {
        strip_char_start(s.drop_first(), c)
    } else {
        s
    }
}

/// Removes leading repetitions of `c`, as `strip_char_start` describes.
pub fn strip_leading(v: &Vec<char>, c: char) -> (r: Vec<char>)
    ensures
        r@ == strip_char_start(v@, c),
{
    let mut start: usize = 0;
    assert(v@.subrange(0, v@.len() as int) =~= v@);
    while start < v.len() && v[start] == c
        invariant
            start <= v.len(),
            strip_char_start(v@, c) == strip_char_start(v@.subrange(start as int, v@.len() as int), c),
        decreases v.len() - start,
    {
        proof {
            let rest = v@.subrange(start as int, v@.len() as int);
            assert(rest.drop_first() =~= v@.subrange(start + 1, v@.len() as int));
        }
        start = start + 1;
    }
    proof {
        let rest = v@.subrange(start as int, v@.len() as int);
        assert(strip_char_start(rest, c) == rest);
    }
    let mut r: Vec<char> = Vec::new();
    let mut i: usize = start;
    while i < v.len()
        invariant
            start <= i <= v.len(),
            r@ == v@.subrange(start as int, i as int),
        decreases v.len() - i,
    {
        r.push(v[i]);
        i = i + 1;
        assert(r@ =~= v@.subrange(start as int, i as int));
    }
    assert(r@ =~= v@.subrange(start as int, v@.len() as int));
    r
}

/// Copies a subrange of a character vector.
pub fn sub_chars(v: &Vec<char>, from: usize, to: usize) -> (r: Vec<char>)
    requires
        from <= to <= v@.len(),
    ensures
        r@ == v@.subrange(from as int, to as int),
{
    let mut r: Vec<char> = Vec::new();
    let mut i: usize = from;
    while i < to
        invariant
            from <= i <= to <= v@.len(),
            r@ == v@.subrange(from as int, i as int),
        decreases to - i,
    {
        r.push(v[i]);
        i = i + 1;
        assert(r@ =~= v@.subrange(from as int, i as int));
    }
    r
}

} // verus!

verus! {

// ---------------------------------------------------------------------------
// Rendering and parsing are inverse
// ---------------------------------------------------------------------------

pub proof fn lemma_hex_digit_char_val(n: nat)
    requires
        n < 16,
    ensures
        is_hex_digit(hex_digit_char(n)),
        hex_digit_val(hex_digit_char(n)) == n,
{
    if n < 10 {
        assert(hex_digit_char(n) == ((48 + n) as u8) as char);
    } else {
        assert(hex_digit_char(n) == ((87 + n) as u8) as char);
    }
}

/// The two-digit hex rendering of a byte parses back to that byte.
pub proof fn lemma_hex2_val(b: u8)
    ensures
        all_hex(hex2(b)),
        parse_hex_u8(hex2(b)) == Some(b),
{
    let s = hex2(b);
    lemma_hex_digit_char_val(b as nat / 16);
    lemma_hex_digit_char_val(b as nat % 16);
    assert(s.len() == 2);
    assert(s[0] == hex_digit_char(b as nat / 16));
    assert(s[1] == hex_digit_char(b as nat % 16));
    assert(all_hex(s)) by {
        assert forall|i: int| 0 <= i < s.len() implies is_hex_digit(s[i]) by {
            assert(i == 0 || i == 1);
        }
    }
    assert(s.drop_last() =~= seq![s[0]]);
    assert(seq![s[0]].drop_last() =~= Seq::<char>::empty());
    assert(hex_val(Seq::<char>::empty()) == 0);
    assert(seq![s[0]].last() == s[0]);
    assert(hex_val(seq![s[0]]) == b as nat / 16);
    assert(hex_val(s) == (b as nat / 16) * 16 + b as nat % 16);
    assert(hex_val(s) == b as nat);
}

/// The decimal rendering of a byte parses back to that byte.
pub proof fn lemma_dec_str_val(b: u8)
    ensures
        all_dec(dec_u8_str(b)),
        parse_dec_u8(dec_u8_str(b)) == Some(b),
{
    let s = dec_u8_str(b);
    if b < 10 {
        lemma_hex_digit_char_val(b as nat);
        assert(s =~= seq![hex_digit_char(b as nat)]);
        assert(s.drop_last() =~= Seq::<char>::empty());
        assert(dec_val(Seq::<char>::empty()) == 0);
        assert(s.last() == hex_digit_char(b as nat));
        assert(s.last() as nat == 48 + b as nat);
        assert(dec_val(s) == b as nat);
    } else if b < 100 {
        lemma_hex_digit_char_val(b as nat / 10);
        lemma_hex_digit_char_val(b as nat % 10);
        assert(s.len() == 2);
        assert(s.drop_last() =~= seq![s[0]]);
        assert(seq![s[0]].drop_last() =~= Seq::<char>::empty());
        assert(dec_val(Seq::<char>::empty()) == 0);
        assert(seq![s[0]].last() as nat == 48 + b as nat / 10);
        assert(dec_val(seq![s[0]]) == b as nat / 10);
        assert(s.last() as nat == 48 + b as nat % 10);
        assert(dec_val(s) == (b as nat / 10) * 10 + b as nat % 10);
    } else {
        lemma_hex_digit_char_val(b as nat / 100);
        lemma_hex_digit_char_val((b as nat / 10) % 10);
        lemma_hex_digit_char_val(b as nat % 10);
        assert(s.len() == 3);
        assert(s.drop_last() =~= seq![s[0], s[1]]);
        assert(seq![s[0], s[1]].drop_last() =~= seq![s[0]]);
        assert(seq![s[0]].drop_last() =~= Seq::<char>::empty());
        assert(dec_val(Seq::<char>::empty()) == 0);
        assert(seq![s[0]].last() as nat == 48 + b as nat / 100);
        assert(dec_val(seq![s[0]]) == b as nat / 100);
        assert(seq![s[0], s[1]].last() as nat == 48 + (b as nat / 10) % 10);
        assert(s.last() as nat == 48 + b as nat % 10);
        assert(dec_val(seq![s[0], s[1]]) == (b as nat / 100) * 10 + (b as nat / 10) % 10);
        assert(dec_val(s) == ((b as nat / 100) * 10 + (b as nat / 10) % 10) * 10 + b as nat % 10);
        assert((b as nat / 100) * 10 + (b as nat / 10) % 10 == b as nat / 10);
        assert((b as nat / 10) * 10 + b as nat % 10 == b as nat);
    }
    assert(all_dec(s)) by {
        assert forall|i: int| 0 <= i < s.len() implies is_dec_digit(s[i]) by {
            assert(i == 0 || i == 1 || i == 2);
        }
    }
}

} // verus!
