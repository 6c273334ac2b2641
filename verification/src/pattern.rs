//! Byte-pattern search with wildcards.
//!
//! A pattern is a byte string together with a mask: a pattern byte whose mask
//! byte is zero is a wildcard and matches any byte of the binary.
use vstd::prelude::*;
use vstd::string::StringSliceAdditionalSpecFns;

use crate::error::S2Error;
use crate::text::{parse_radix16, parse_radix16_range, split_on, lemma_split_on_nonempty, lemma_split_prefix_pieces, hex2, push_hex2};

verus! {

/// The pattern matches `data` at position `start` under `mask`: every
/// pattern byte whose mask byte is non-zero equals the data byte under it.
pub open spec fn masked_match_at(data: Seq<u8>, start: int, pattern: Seq<u8>, mask: Seq<u8>) -> bool {
    &&& 0 <= start
    &&& start + pattern.len() <= data.len()
    &&& forall|j: int| #![trigger pattern[j]]
        0 <= j < pattern.len() && mask[j] != 0 ==> data[start + j] == pattern[j]
}

/// The mask that a list of wildcard indices describes for a pattern of `len`
/// bytes: zero at every listed index, `0xFF` elsewhere.
pub open spec fn wildcard_mask(len: nat, wildcards: Seq<usize>) -> Seq<u8> {
    Seq::new(len, |j: int| if wildcards.contains(j as usize) { 0u8 } else { 0xFFu8 })
}

/// The pattern with the given wildcard indices matches `data` at `start`.
pub open spec fn pattern_matches_at(data: Seq<u8>, start: int, pattern: Seq<u8>, wildcards: Seq<usize>) -> bool {
    masked_match_at(data, start, pattern, wildcard_mask(pattern.len(), wildcards))
}

/// `start` is the first position at which the pattern matches.
pub open spec fn is_first_match(data: Seq<u8>, start: int, pattern: Seq<u8>, mask: Seq<u8>) -> bool {
    &&& masked_match_at(data, start, pattern, mask)
    &&& forall|k: int| 0 <= k < start ==> !masked_match_at(data, k, pattern, mask)
}

/// The pattern matches somewhere in `data`.
pub open spec fn has_match(data: Seq<u8>, pattern: Seq<u8>, mask: Seq<u8>) -> bool {
    exists|k: int| masked_match_at(data, k, pattern, mask)
}

/// Compares `pattern` against the first `pattern.len()` bytes of `data`,
/// skipping positions whose mask byte is zero.
pub fn check_match(data: &[u8], pattern: &[u8], mask: &[u8]) -> (r: bool)
    requires
        data@.len() >= pattern@.len(),
        mask@.len() >= pattern@.len(),
    ensures
        r == masked_match_at(data@, 0, pattern@, mask@),
{
    check_match_at(data, 0, pattern, mask)
}

/// `check_match` on the bytes of `data` that start at `start`.
fn check_match_at(data: &[u8], start: usize, pattern: &[u8], mask: &[u8]) -> (r: bool)
    requires
        start + pattern@.len() <= data@.len(),
        mask@.len() >= pattern@.len(),
    ensures
        r == masked_match_at(data@, start as int, pattern@, mask@),
{
    let n = pattern.len();
    let mut i: usize = 0;
    while i < n
        invariant
            n == pattern@.len(),
            i <= n,
            start + n <= data.len(),
            mask@.len() >= n,
            forall|j: int| #![trigger pattern@[j]]
                0 <= j < i && mask@[j] != 0 ==> data@[start + j] == pattern@[j],
        decreases n - i,
    {
        if mask[i] != 0 && data[start + i] != pattern[i] {
            assert(!masked_match_at(data@, start as int, pattern@, mask@)) by {
                assert(pattern@[i as int] != data@[start + i]);
            }
            return false;
        }
        i = i + 1;
    }
    true
}

/// Index of the first byte with mask `0xFF`, and of the last one.
pub fn get_bounds(pattern: &[u8], mask: &[u8]) -> (r: Option<(usize, usize)>)
    requires
        mask@.len() >= pattern@.len(),
    ensures
        match r {
            None => forall|j: int| 0 <= j < pattern@.len() ==> mask@[j] != 0xFF,
            Some((first, last)) => {
                &&& first <= last < pattern@.len()
                &&& mask@[first as int] == 0xFF
                &&& mask@[last as int] == 0xFF
                &&& forall|j: int| 0 <= j < first ==> mask@[j] != 0xFF
                &&& forall|j: int| last < j < pattern@.len() ==> mask@[j] != 0xFF
            },
        },
{
    let n = pattern.len();
    let mut first: usize = 0;
    while first < n && mask[first] != 0xFF
        invariant
            first <= n,
            n == pattern@.len(),
            mask@.len() >= n,
            forall|j: int| 0 <= j < first ==> mask@[j] != 0xFF,
        decreases n - first,
    {
        first = first + 1;
    }
    if first == n {
        return None;
    }
    let mut last: usize = n - 1;
    while mask[last] != 0xFF
        invariant
            first <= last < n,
            n == pattern@.len(),
            mask@.len() >= n,
            mask@[first as int] == 0xFF,
            forall|j: int| last < j < n ==> mask@[j] != 0xFF,
        decreases last,
    {
        last = last - 1;
    }
    Some((first, last))
}

/// First position at which `pattern` matches `binary` under `mask`.
pub fn find_scalar(binary: &[u8], pattern: &[u8], mask: &[u8]) -> (r: Result<u64, S2Error>)
    requires
        mask@.len() >= pattern@.len(),
    ensures
        match r {
            Ok(i) => pattern@.len() > 0 && is_first_match(binary@, i as int, pattern@, mask@),
            Err(e) => e == S2Error::PatternNotFound
                && (pattern@.len() == 0 || !has_match(binary@, pattern@, mask@)),
        },
{
    find_scalar_from(binary, 0, pattern, mask)
}

/// First match at or after `from`, given that there is none before it.
fn find_scalar_from(binary: &[u8], from: usize, pattern: &[u8], mask: &[u8]) -> (r: Result<u64, S2Error>)
    requires
        mask@.len() >= pattern@.len(),
        forall|k: int| 0 <= k < from ==> !masked_match_at(binary@, k, pattern@, mask@),
    ensures
        match r {
            Ok(i) => pattern@.len() > 0 && is_first_match(binary@, i as int, pattern@, mask@),
            Err(e) => e == S2Error::PatternNotFound
                && (pattern@.len() == 0 || !has_match(binary@, pattern@, mask@)),
        },
{
    if pattern.len() == 0 || binary.len() < pattern.len() {
        assert(pattern@.len() == 0 || !has_match(binary@, pattern@, mask@));
        return Err(S2Error::PatternNotFound);
    }
    let end = binary.len() - pattern.len();
    let mut i: usize = from;
    while i <= end
        invariant
            end + pattern.len() == binary.len(),
            mask@.len() >= pattern@.len(),
            pattern@.len() > 0,
            forall|k: int| 0 <= k < i ==> !masked_match_at(binary@, k, pattern@, mask@),
        decreases end + 1 - i,
    {
        if check_match_at(binary, i, pattern, mask) {
            return Ok(i as u64);
        }
        i = i + 1;
    }
    assert(!has_match(binary@, pattern@, mask@));
    Err(S2Error::PatternNotFound)
}

/// Builds the mask for a pattern of `len` bytes from wildcard indices;
/// indices at or beyond `len` are ignored.
pub fn build_mask(len: usize, wildcards: &[usize]) -> (mask: Vec<u8>)
    ensures
        mask@ == wildcard_mask(len as nat, wildcards@),
{
    let mut mask: Vec<u8> = Vec::new();
    let mut j: usize = 0;
    while j < len
        invariant
            j <= len,
            mask@.len() == j,
            forall|k: int| 0 <= k < j ==> mask@[k] == 0xFFu8,
        decreases len - j,
    {
        mask.push(0xFFu8);
        j = j + 1;
    }
    let mut w: usize = 0;
    while w < wildcards.len()
        invariant
            w <= wildcards@.len(),
            mask@.len() == len,
            forall|k: int| 0 <= k < len ==> #[trigger] mask@[k] == (if (exists|m: int| 0 <= m < w && #[trigger] wildcards@[m] == k as usize) { 0u8 } else { 0xFFu8 }),
        decreases wildcards@.len() - w,
    {
        let idx = wildcards[w];
        if idx < len {
            mask.set(idx, 0u8);
        }
        assert forall|k: int| 0 <= k < len implies #[trigger] mask@[k] == (if (exists|m: int| 0 <= m < w + 1 && #[trigger] wildcards@[m] == k as usize) { 0u8 } else { 0xFFu8 }) by {
            if k == idx as int {
                assert(wildcards@[w as int] == k as usize);
            } else if exists|m: int| 0 <= m < w + 1 && #[trigger] wildcards@[m] == k as usize {
                let m = choose|m: int| 0 <= m < w + 1 && #[trigger] wildcards@[m] == k as usize;
                assert(m < w);
            }
        }
        w = w + 1;
    }
    assert forall|k: int| 0 <= k < len implies mask@[k] == wildcard_mask(len as nat, wildcards@)[k] by {
        if wildcards@.contains(k as usize) {
            let m = choose|m: int| 0 <= m < wildcards@.len() && wildcards@[m] == k as usize;
            assert(wildcards@[m] == k as usize);
        }
    }
    assert(mask@ == wildcard_mask(len as nat, wildcards@));
    mask
}

/// Offset of the first match of `pattern` in `binary`, where the pattern
/// bytes at the indices listed in `wildcards` match any byte.
pub fn find_pattern_simd(binary: &[u8], pattern: &[u8], wildcards: &[usize]) -> (r: Result<u64, S2Error>)
    ensures
        match r {
            Ok(i) => pattern@.len() > 0 && is_first_match(
                binary@,
                i as int,
                pattern@,
                wildcard_mask(pattern@.len(), wildcards@),
            ),
            Err(e) => e == S2Error::PatternNotFound && (pattern@.len() == 0 || !has_match(
                binary@,
                pattern@,
                wildcard_mask(pattern@.len(), wildcards@),
            )),
        },
{
    if pattern.len() == 0 || binary.len() < pattern.len() {
        return Err(S2Error::PatternNotFound);
    }
    let mask = build_mask(pattern.len(), wildcards);
    match get_bounds(pattern, mask.as_slice()) {
        None => find_scalar(binary, pattern, mask.as_slice()),
        Some((first, last)) => find_anchored(binary, pattern, mask.as_slice(), first, last),
    }
}

/// The search that the vectorised scan performs: a position is only checked
/// in full when the first and the last non-wildcard byte already match.
fn find_anchored(binary: &[u8], pattern: &[u8], mask: &[u8], first: usize, last: usize) -> (r: Result<u64, S2Error>)
    requires
        mask@.len() == pattern@.len(),
        first <= last < pattern@.len(),
        mask@[first as int] != 0,
        mask@[last as int] != 0,
        binary@.len() >= pattern@.len(),
    ensures
        match r {
            Ok(i) => pattern@.len() > 0 && is_first_match(binary@, i as int, pattern@, mask@),
            Err(e) => e == S2Error::PatternNotFound && !has_match(binary@, pattern@, mask@),
        },
{
    let end = binary.len() - pattern.len();
    let f = pattern[first];
    let l = pattern[last];
    let mut i: usize = 0;
    while i <= end
        invariant
            end + pattern.len() == binary.len(),
            mask@.len() == pattern@.len(),
            first <= last < pattern@.len(),
            mask@[first as int] != 0,
            mask@[last as int] != 0,
            f == pattern@[first as int],
            l == pattern@[last as int],
            forall|k: int| 0 <= k < i ==> !masked_match_at(binary@, k, pattern@, mask@),
        decreases end + 1 - i,
    {
        if binary[i + first] == f && binary[i + last] == l {
            if check_match_at(binary, i, pattern, mask) {
                return Ok(i as u64);
            }
        } else {
            assert(!masked_match_at(binary@, i as int, pattern@, mask@)) by {
                assert(pattern@[first as int] == f);
                assert(pattern@[last as int] == l);
            }
        }
        i = i + 1;
    }
    assert(!has_match(binary@, pattern@, mask@));
    Err(S2Error::PatternNotFound)
}

/// A token of an IDA-style pattern that stands for any byte: `?` or `??`.
pub open spec fn is_wildcard_token(t: Seq<u8>) -> bool {
    t == seq![0x3Fu8] || t == seq![0x3Fu8, 0x3Fu8]
}

/// A token is a wildcard or a base-16 byte value.
pub open spec fn is_valid_token(t: Seq<u8>) -> bool {
    is_wildcard_token(t) || parse_radix16(t, 255) is Some
}

/// The space-separated tokens of an IDA-style pattern string.
pub open spec fn pattern_tokens(s: Seq<u8>) -> Seq<Seq<u8>> {
    split_on(s, 0x20)
}

/// Every token of the pattern string is valid.
pub open spec fn is_valid_pattern_string(s: Seq<u8>) -> bool {
    forall|j: int| 0 <= j < pattern_tokens(s).len() ==> #[trigger] is_valid_token(pattern_tokens(s)[j])
}

/// The byte a token stands for; wildcards stand for zero.
pub open spec fn token_byte(t: Seq<u8>) -> u8 {
    if is_wildcard_token(t) {
        0u8
    } else {
        parse_radix16(t, 255).unwrap() as u8
    }
}

/// The pattern bytes of an IDA-style pattern string.
pub open spec fn pattern_string_bytes(s: Seq<u8>) -> Seq<u8> {
    pattern_tokens(s).map_values(|t: Seq<u8>| token_byte(t))
}

/// `w` lists, in increasing order, exactly the indices of the wildcard tokens.
pub open spec fn lists_wildcards(tokens: Seq<Seq<u8>>, w: Seq<usize>) -> bool {
    &&& forall|a: int, b: int| 0 <= a < b < w.len() ==> w[a] < w[b]
    &&& forall|k: int| 0 <= k < w.len() ==> w[k] < tokens.len() && is_wildcard_token(tokens[w[k] as int])
    &&& forall|j: int| 0 <= j < tokens.len() && #[trigger] is_wildcard_token(tokens[j]) ==> w.contains(j as usize)
}

fn is_wildcard_range(b: &[u8], lo: usize, hi: usize) -> (r: bool)
    requires
        lo <= hi <= b@.len(),
    ensures
        r == is_wildcard_token(b@.subrange(lo as int, hi as int)),
{
    let ghost t = b@.subrange(lo as int, hi as int);
    if hi - lo == 1 {
        assert(t.len() == 1 && t[0] == b@[lo as int]);
        if b[lo] == 0x3F {
            assert(t =~= seq![0x3Fu8]);
        }
        assert(t != seq![0x3Fu8, 0x3Fu8]);
        b[lo] == 0x3F
    } else if hi - lo == 2 {
        assert(t.len() == 2 && t[0] == b@[lo as int] && t[1] == b@[lo + 1]);
        if b[lo] == 0x3F && b[lo + 1] == 0x3F {
            assert(t =~= seq![0x3Fu8, 0x3Fu8]);
        }
        assert(t != seq![0x3Fu8]);
        b[lo] == 0x3F && b[lo + 1] == 0x3F
    } else {
        assert(t != seq![0x3Fu8]);
        assert(t != seq![0x3Fu8, 0x3Fu8]);
        false
    }
}

/// The pattern-building state after the tokens `done`: `bytes` holds their
/// values and `wild` the indices of the wildcards among them.
spec fn tokens_parsed(done: Seq<Seq<u8>>, bytes: Seq<u8>, wild: Seq<usize>) -> bool {
    &&& bytes == done.map_values(|t: Seq<u8>| token_byte(t))
    &&& lists_wildcards(done, wild)
}

/// Appends the token `b[lo..hi]` to the pattern being built.
fn push_token(b: &[u8], lo: usize, hi: usize, bytes: &mut Vec<u8>, wild: &mut Vec<usize>, Ghost(done): Ghost<Seq<Seq<u8>>>)
    requires
        lo <= hi <= b@.len(),
        is_valid_token(b@.subrange(lo as int, hi as int)),
        tokens_parsed(done, old(bytes)@, old(wild)@),
    ensures
        tokens_parsed(done.push(b@.subrange(lo as int, hi as int)), final(bytes)@, final(wild)@),
{
    let ghost tok = b@.subrange(lo as int, hi as int);
    let w = is_wildcard_range(b, lo, hi);
    let v: u8 = if w {
        0u8
    } else {
        match parse_radix16_range(b, lo, hi, 255) {
            Some(x) => x as u8,
            None => 0u8,
        }
    };
    let ghost old_wild = wild@;
    if w {
        wild.push(bytes.len());
    }
    bytes.push(v);
    proof {
        let nd = done.push(tok);
        assert(bytes@ == nd.map_values(|t: Seq<u8>| token_byte(t)));
        assert(nd[done.len() as int] == tok);
        assert forall|j: int| 0 <= j < nd.len() && #[trigger] is_wildcard_token(nd[j]) implies wild@.contains(j as usize) by {
            if j < done.len() {
                assert(nd[j] == done[j]);
                assert(is_wildcard_token(done[j]));
                assert(old_wild.contains(j as usize));
                let m = choose|m: int| 0 <= m < old_wild.len() && old_wild[m] == j as usize;
                assert(wild@[m] == j as usize);
            } else {
                assert(wild@[wild@.len() - 1] == j as usize);
            }
        }
        assert forall|k: int| 0 <= k < wild@.len() implies wild@[k] < nd.len() && is_wildcard_token(nd[wild@[k] as int]) by {
            if k < old_wild.len() {
                assert(wild@[k] == old_wild[k]);
                assert(nd[old_wild[k] as int] == done[old_wild[k] as int]);
            }
        }
    }
}

/// Splits an IDA-style pattern string such as `48 8B ?? 05` into its bytes
/// and the indices of its wildcard tokens.
pub fn parse_pattern_string(pattern_string: &str) -> (r: (Vec<u8>, Vec<usize>))
    requires
        is_valid_pattern_string(pattern_string.spec_bytes()),
    ensures
        r.0@ == pattern_string_bytes(pattern_string.spec_bytes()),
        lists_wildcards(pattern_tokens(pattern_string.spec_bytes()), r.1@),
{
    let b = pattern_string.as_bytes();
    let ghost s = b@;
    let mut bytes: Vec<u8> = Vec::new();
    let mut wild: Vec<usize> = Vec::new();
    let ghost mut done: Seq<Seq<u8>> = Seq::empty();
    let mut tok_start: usize = 0;
    let mut i: usize = 0;
    proof {
        assert(s.take(0) =~= Seq::<u8>::empty());
        assert(split_on(s.take(0), 0x20) == seq![Seq::<u8>::empty()]);
        assert(s.subrange(0, 0) =~= Seq::<u8>::empty());
        assert(done.push(s.subrange(0, 0)) =~= seq![Seq::<u8>::empty()]);
        assert(bytes@ =~= done.map_values(|t: Seq<u8>| token_byte(t)));
    }
    while i < b.len()
        invariant
            s == b@,
            s == pattern_string.spec_bytes(),
            is_valid_pattern_string(s),
            tok_start <= i <= b@.len(),
            split_on(s.take(i as int), 0x20) == done.push(s.subrange(tok_start as int, i as int)),
            tokens_parsed(done, bytes@, wild@),
        decreases b@.len() - i,
    {
        if b[i] == 0x20 {
            proof {
                lemma_split_prefix_token(s, i as int, done, s.subrange(tok_start as int, i as int));
            }
            push_token(b, tok_start, i, &mut bytes, &mut wild, Ghost(done));
            proof {
                done = done.push(s.subrange(tok_start as int, i as int));
                assert(s.take(i + 1) == s.take(i as int).push(0x20u8));
                assert(s.take(i + 1).drop_last() == s.take(i as int));
                assert(s.subrange(i + 1, i + 1) =~= Seq::<u8>::empty());
            }
            tok_start = i + 1;
        } else {
            proof {
                assert(s.take(i + 1) == s.take(i as int).push(s[i as int]));
                assert(s.take(i + 1).drop_last() == s.take(i as int));
                assert(s.subrange(tok_start as int, i + 1) == s.subrange(tok_start as int, i as int).push(s[i as int]));
            }
        }
        i = i + 1;
    }
    proof {
        lemma_split_prefix_token(s, i as int, done, s.subrange(tok_start as int, i as int));
    }
    push_token(b, tok_start, i, &mut bytes, &mut wild, Ghost(done));
    proof {
        done = done.push(s.subrange(tok_start as int, i as int));
        assert(s.take(i as int) == s);
    }
    (bytes, wild)
}

/// A finished token of a prefix of the string is a token of the whole string.
proof fn lemma_split_prefix_token(s: Seq<u8>, i: int, done: Seq<Seq<u8>>, tok: Seq<u8>)
    requires
        0 <= i <= s.len(),
        i == s.len() || s[i] == 0x20,
        split_on(s.take(i), 0x20) == done.push(tok),
        is_valid_pattern_string(s),
    ensures
        is_valid_token(tok),
{
    lemma_split_prefix_pieces(s, i + 1 - (if i == s.len() { 1int } else { 0int }), 0x20);
    if i == s.len() {
        assert(s.take(i) == s);
        assert(split_on(s, 0x20)[done.len() as int] == tok);
        assert(is_valid_token(pattern_tokens(s)[done.len() as int]));
    } else {
        assert(s.take(i + 1).drop_last() == s.take(i));
        assert(split_on(s.take(i + 1), 0x20) == done.push(tok).push(Seq::<u8>::empty()));
        assert(split_on(s.take(i + 1), 0x20)[done.len() as int] == tok);
        assert(split_on(s, 0x20)[done.len() as int] == tok);
        assert(is_valid_token(pattern_tokens(s)[done.len() as int]));
    }
}

/// The first position where the pattern matches, if any (none for an empty
/// pattern).
pub open spec fn first_match(s: Seq<u8>, pattern: Seq<u8>, mask: Seq<u8>) -> Option<int> {
    if pattern.len() > 0 && has_match(s, pattern, mask) {
        Some(choose|i: int| is_first_match(s, i, pattern, mask))
    } else {
        None
    }
}

/// The first match is the one `is_first_match` describes.
pub proof fn lemma_first_match(s: Seq<u8>, pattern: Seq<u8>, mask: Seq<u8>, i: int)
    requires
        pattern.len() > 0,
        is_first_match(s, i, pattern, mask),
    ensures
        first_match(s, pattern, mask) == Some(i),
{
    assert(has_match(s, pattern, mask));
    let j = choose|j: int| is_first_match(s, j, pattern, mask);
    assert(is_first_match(s, j, pattern, mask));
    if j < i {
        assert(!masked_match_at(s, j, pattern, mask));
    }
    if i < j {
        assert(!masked_match_at(s, i, pattern, mask));
    }
}

/// Where the pattern with the given wildcards first matches `s`.
pub open spec fn pattern_search(s: Seq<u8>, pattern: Seq<u8>, wildcards: Seq<usize>) -> Option<int> {
    first_match(s, pattern, wildcard_mask(pattern.len(), wildcards))
}

/// `find_pattern_simd`, its result stated through `pattern_search`.
pub fn find_first(binary: &[u8], pattern: &[u8], wildcards: &[usize]) -> (r: Result<u64, S2Error>)
    ensures
        match pattern_search(binary@, pattern@, wildcards@) {
            Some(i) => r == Ok::<u64, S2Error>(i as u64) && 0 <= i && i + pattern@.len() <= binary@.len(),
            None => r == Err::<u64, S2Error>(S2Error::PatternNotFound),
        },
{
    let r = find_pattern_simd(binary, pattern, wildcards);
    proof {
        if let Ok(i) = r {
            lemma_first_match(binary@, pattern@, wildcard_mask(pattern@.len(), wildcards@), i as int);
        }
    }
    r
}

} // verus!
