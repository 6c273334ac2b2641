//! Small text helpers: hexadecimal and decimal numerals, splitting on a byte,
//! and strings built from ASCII bytes.
use vstd::prelude::*;

verus! {

broadcast use vstd::string::group_string_axioms;

/// Value of one hexadecimal digit, either case.
pub open spec fn hex_digit_value(b: u8) -> Option<nat> {
    if 0x30 <= b <= 0x39 {
        Some((b - 0x30) as nat)
    } else if 0x61 <= b <= 0x66 {
        Some((b - 0x61 + 10) as nat)
    } else if 0x41 <= b <= 0x46 {
        Some((b - 0x41 + 10) as nat)
    } else {
        None
    }
}

/// Every byte is a hexadecimal digit.
pub open spec fn all_hex_digits(s: Seq<u8>) -> bool {
    forall|i: int| 0 <= i < s.len() ==> (#[trigger] hex_digit_value(s[i])) is Some
}

/// Value of a string of hexadecimal digits, most significant first.
pub open spec fn hex_digits_value(s: Seq<u8>) -> nat
    decreases s.len(),
{
    if s.len() == 0 {
        0
    } else {
        hex_digits_value(s.drop_last()) * 16 + hex_digit_value(s.last()).unwrap_or(0)
    }
}

/// The digits that a base-16 integer parse reads: a leading `+` is skipped
/// when something follows it.
pub open spec fn radix16_digits(src: Seq<u8>) -> Seq<u8> {
    if src.len() > 1 && src[0] == 0x2B {
        src.drop_first()
    } else {
        src
    }
}

/// Base-16 parse of an unsigned integer no larger than `max`, as std's
/// `from_str_radix(src, 16)` for an unsigned type does it: an optional `+`,
/// then one or more hexadecimal digits; `None` on anything else or on a
/// value above `max`.
pub open spec fn parse_radix16(src: Seq<u8>, max: nat) -> Option<nat> {
    let d = radix16_digits(src);
    if src.len() > 0 && all_hex_digits(d) && hex_digits_value(d) <= max {
        Some(hex_digits_value(d))
    } else {
        None
    }
}

proof fn lemma_hex_digits_value_push(s: Seq<u8>, b: u8)
    ensures
        hex_digits_value(s.push(b)) == hex_digits_value(s) * 16 + hex_digit_value(b).unwrap_or(0),
{
    assert(s.push(b).drop_last() == s);
}

proof fn lemma_hex_digits_value_mono(s: Seq<u8>, i: int)
    requires
        0 <= i <= s.len(),
    ensures
        hex_digits_value(s.take(i)) <= hex_digits_value(s),
    decreases s.len() - i,
{
    if i < s.len() {
        lemma_hex_digits_value_mono(s, i + 1);
        assert(s.take(i + 1) == s.take(i).push(s[i]));
        lemma_hex_digits_value_push(s.take(i), s[i]);
    } else {
        assert(s.take(i) == s);
    }
}

/// Value of the hexadecimal digit `b`, if it is one.
pub fn hex_digit(b: u8) -> (r: Option<u8>)
    ensures
        match hex_digit_value(b) {
            Some(v) => r == Some(v as u8) && v < 16,
            None => r is None,
        },
{
    if 0x30 <= b && b <= 0x39 {
        Some(b - 0x30)
    } else if 0x61 <= b && b <= 0x66 {
        Some(b - 0x61 + 10)
    } else if 0x41 <= b && b <= 0x46 {
        Some(b - 0x41 + 10)
    } else {
        None
    }
}

/// Base-16 parse of `bytes[lo..hi]` bounded by `max`; see `parse_radix16`.
pub fn parse_radix16_range(bytes: &[u8], lo: usize, hi: usize, max: u64) -> (r: Option<u64>)
    requires
        lo <= hi <= bytes@.len(),
        max >= 15,
    ensures
        match parse_radix16(bytes@.subrange(lo as int, hi as int), max as nat) {
            Some(v) => r == Some(v as u64),
            None => r is None,
        },
{
    let ghost src = bytes@.subrange(lo as int, hi as int);
    if lo == hi {
        return None;
    }
    let mut start = lo;
    if hi - lo > 1 && bytes[lo] == 0x2B {
        start = lo + 1;
    }
    let ghost d = radix16_digits(src);
    assert(d == bytes@.subrange(start as int, hi as int));
    let mut acc: u64 = 0;
    let mut i = start;
    while i < hi
        invariant
            lo <= start <= i <= hi <= bytes@.len(),
            d == bytes@.subrange(start as int, hi as int),
            src == bytes@.subrange(lo as int, hi as int),
            d == radix16_digits(src),
            src.len() > 0,
            all_hex_digits(d.take(i - start)),
            acc as nat == hex_digits_value(d.take(i - start)),
            acc <= max,
            max >= 15,
        decreases hi - i,
    {
        let k: usize = i - start;
        assert(d.take(k + 1) == d.take(k as int).push(d[k as int]));
        match hex_digit(bytes[i]) {
            None => {
                assert(d[k as int] == bytes@[i as int]);
                assert(hex_digit_value(d[k as int]) is None);
                assert(!all_hex_digits(d));
                return None;
            },
            Some(v) => {
                proof {
                    lemma_hex_digits_value_push(d.take(k as int), d[k as int]);
                }
                if acc > (max - v as u64) / 16 {
                    proof {
                        lemma_hex_digits_value_mono(d, k + 1);
                        assert(acc * 16 + v > max) by (nonlinear_arith)
                            requires
                                acc > (max - v as u64) / 16,
                                v < 16,
                                max >= 15,
                        ;
                        assert(d[k as int] == bytes@[i as int]);
                    }
                    return None;
                }
                assert(acc * 16 + v <= max) by (nonlinear_arith)
                    requires
                        acc <= (max - v as u64) / 16,
                        v < 16,
                        max >= 15,
                ;
                acc = acc * 16 + v as u64;
                assert(all_hex_digits(d.take(k + 1)));
            },
        }
        i = i + 1;
    }
    assert(d.take(hi - start) == d);
    Some(acc)
}

/// The pieces of `s` between occurrences of the byte `sep`, as `str::split`
/// with a one-byte separator produces them (empty pieces included).
pub open spec fn split_on(s: Seq<u8>, sep: u8) -> Seq<Seq<u8>>
    decreases s.len(),
{
    if s.len() == 0 {
        seq![Seq::<u8>::empty()]
    } else {
        let prev = split_on(s.drop_last(), sep);
        if s.last() == sep {
            prev.push(Seq::<u8>::empty())
        } else {
            prev.update(prev.len() - 1, prev.last().push(s.last()))
        }
    }
}

pub proof fn lemma_split_on_nonempty(s: Seq<u8>, sep: u8)
    ensures
        split_on(s, sep).len() >= 1,
    decreases s.len(),
{
    if s.len() > 0 {
        lemma_split_on_nonempty(s.drop_last(), sep);
    }
}

/// Characters of a byte string in which every byte is ASCII.
pub open spec fn ascii_chars(bytes: Seq<u8>) -> Seq<char> {
    Seq::new(bytes.len(), |i: int| bytes[i] as char)
}

/// Every byte is ASCII.
pub open spec fn is_ascii_bytes(bytes: Seq<u8>) -> bool {
    forall|i: int| 0 <= i < bytes.len() ==> #[trigger] bytes[i] < 0x80
}

/// The characters that `String::from_utf8_lossy` makes of a byte string.
pub uninterp spec fn utf8_lossy(bytes: Seq<u8>) -> Seq<char>;

/// `String::from_utf8_lossy` followed by `to_string`. Valid UTF-8 comes back
/// unchanged, so ASCII input comes back as the same characters.
#[verifier::external_body]
pub(crate) fn string_from_bytes_lossy(bytes: &[u8]) -> (r: String)
    ensures
        r@ == utf8_lossy(bytes@),
        is_ascii_bytes(bytes@) ==> r@ == ascii_chars(bytes@),
{
    String::from_utf8_lossy(bytes).to_string()
}

/// The one-character string of an uppercase hexadecimal digit.
fn hex_digit_str(v: u8) -> (r: &'static str)
    requires
        v < 16,
    ensures
        r@ == seq![upper_hex_char(v as nat)],
{
    proof {
        reveal_strlit("0"); reveal_strlit("1"); reveal_strlit("2"); reveal_strlit("3");
        reveal_strlit("4"); reveal_strlit("5"); reveal_strlit("6"); reveal_strlit("7");
        reveal_strlit("8"); reveal_strlit("9"); reveal_strlit("A"); reveal_strlit("B");
        reveal_strlit("C"); reveal_strlit("D"); reveal_strlit("E"); reveal_strlit("F");
    }
    match v {
        0 => "0", 1 => "1", 2 => "2", 3 => "3", 4 => "4", 5 => "5", 6 => "6", 7 => "7",
        8 => "8", 9 => "9", 10 => "A", 11 => "B", 12 => "C", 13 => "D", 14 => "E", _ => "F",
    }
}

/// Uppercase hexadecimal digit for a value below 16.
pub open spec fn upper_hex_char(v: nat) -> char {
    if v < 10 {
        ((v + 0x30) as u8) as char
    } else {
        ((v - 10 + 0x41) as u8) as char
    }
}

/// Two uppercase hexadecimal digits of a byte, as `{:02X}` prints it.
pub open spec fn hex2(b: u8) -> Seq<char> {
    seq![upper_hex_char((b / 16) as nat), upper_hex_char((b % 16) as nat)]
}

/// Appends `{:02X}` of `b` to `s`.
pub fn push_hex2(s: &mut String, b: u8)
    ensures
        final(s)@ == old(s)@ + hex2(b),
{
    s.append(hex_digit_str(b / 16));
    s.append(hex_digit_str(b % 16));
}

/// Decimal digits of `n`, as `{}` prints an unsigned integer.
pub open spec fn decimal(n: nat) -> Seq<char>
    decreases n,
{
    if n < 10 {
        seq![((n + 0x30) as u8) as char]
    } else {
        decimal(n / 10).push((((n % 10) + 0x30) as u8) as char)
    }
}

/// Appends the decimal digits of `n` to `s`.
pub fn push_decimal(s: &mut String, n: usize)
    ensures
        final(s)@ == old(s)@ + decimal(n as nat),
    decreases n,
{
    if n >= 10 {
        push_decimal(s, n / 10);
    }
    let d = (n % 10) as u8;
    s.append(hex_digit_str(d));
    proof {
        assert(upper_hex_char(d as nat) == (((n % 10) + 0x30) as u8) as char);
    }
}

/// The characters that `char::is_whitespace` accepts (Unicode White_Space).
pub open spec fn is_unicode_whitespace(c: char) -> bool {
    let v = c as u32;
    (0x9 <= v <= 0xD) || v == 0x20 || v == 0x85 || v == 0xA0 || v == 0x1680
        || (0x2000 <= v <= 0x200A) || v == 0x2028 || v == 0x2029 || v == 0x202F
        || v == 0x205F || v == 0x3000
}

/// Whether `c` is Unicode whitespace.
pub fn is_whitespace_char(c: char) -> (r: bool)
    ensures
        r == is_unicode_whitespace(c),
{
    let v = c as u32;
    (0x9 <= v && v <= 0xD) || v == 0x20 || v == 0x85 || v == 0xA0 || v == 0x1680
        || (0x2000 <= v && v <= 0x200A) || v == 0x2028 || v == 0x2029 || v == 0x202F
        || v == 0x205F || v == 0x3000
}

/// The maximal runs of non-whitespace characters, as `str::split_whitespace`
/// yields them.
pub open spec fn whitespace_tokens(s: Seq<char>) -> Seq<Seq<char>>
    decreases s.len(),
{
    if s.len() == 0 {
        Seq::empty()
    } else {
        let p = whitespace_tokens(s.drop_last());
        let c = s.last();
        if is_unicode_whitespace(c) {
            p
        } else if s.len() >= 2 && !is_unicode_whitespace(s[s.len() - 2]) {
            p.update(p.len() - 1, p.last().push(c))
        } else {
            p.push(seq![c])
        }
    }
}

/// A character's byte when it is ASCII, else `0xFF` (which is no digit and
/// no separator).
pub open spec fn char_byte(c: char) -> u8 {
    if (c as u32) < 0x80 {
        (c as u32) as u8
    } else {
        0xFFu8
    }
}

/// The bytes of `char_byte` for each character.
pub open spec fn char_bytes(s: Seq<char>) -> Seq<u8> {
    s.map_values(|c: char| char_byte(c))
}

/// `String` made of the given characters, as collecting them does.
#[verifier::external_body]
pub(crate) fn string_from_chars(chars: &[char]) -> (r: String)
    ensures
        r@ == chars@,
{
    chars.iter().collect()
}

/// The finished pieces of a prefix are pieces of the whole string.
pub proof fn lemma_split_prefix_pieces(s: Seq<u8>, i: int, sep: u8)
    requires
        0 <= i <= s.len(),
    ensures
        split_on(s.take(i), sep).len() <= split_on(s, sep).len(),
        forall|j: int| 0 <= j < split_on(s.take(i), sep).len() - 1 ==>
            #[trigger] split_on(s.take(i), sep)[j] == split_on(s, sep)[j],
    decreases s.len() - i,
{
    lemma_split_on_nonempty(s.take(i), sep);
    if i < s.len() {
        lemma_split_prefix_pieces(s, i + 1, sep);
        lemma_split_on_nonempty(s.take(i + 1), sep);
        assert(s.take(i + 1).drop_last() == s.take(i));
        assert(s.take(i + 1).last() == s[i]);
        let prev = split_on(s.take(i), sep);
        if s[i] == sep {
            assert(split_on(s.take(i + 1), sep) == prev.push(Seq::<u8>::empty()));
        } else {
            assert(split_on(s.take(i + 1), sep) == prev.update(prev.len() - 1, prev.last().push(s[i])));
        }
        assert forall|j: int| 0 <= j < prev.len() - 1 implies #[trigger] prev[j] == split_on(s, sep)[j] by {
            assert(prev[j] == split_on(s.take(i + 1), sep)[j]);
        }
    } else {
        assert(s.take(i) == s);
    }
}

/// Text of one signature byte: `?` for a wildcard, else two uppercase hex digits.
pub open spec fn signature_token_text(entry: (u8, bool)) -> Seq<char> {
    if entry.1 {
        seq!['?']
    } else {
        hex2(entry.0)
    }
}

/// An IDA-style signature: the token texts joined by single spaces.
pub open spec fn ida_signature_text(sig: Seq<(u8, bool)>) -> Seq<char>
    decreases sig.len(),
{
    if sig.len() == 0 {
        Seq::empty()
    } else if sig.len() == 1 {
        signature_token_text(sig[0])
    } else {
        ida_signature_text(sig.drop_last()) + seq![' '] + signature_token_text(sig.last())
    }
}

/// Renders a signature of (byte, is-wildcard) pairs as IDA-style text.
pub fn build_ida_signature(signature: &[(u8, bool)]) -> (out: String)
    ensures
        out@ == ida_signature_text(signature@),
{
    let mut out = String::new();
    let mut i: usize = 0;
    proof {
        reveal_strlit("?");
        reveal_strlit(" ");
        assert(signature@.take(0) =~= Seq::<(u8, bool)>::empty());
    }
    while i < signature.len()
        invariant
            i <= signature@.len(),
            out@ == ida_signature_text(signature@.take(i as int)),
        decreases signature@.len() - i,
    {
        let (byte, wildcard) = signature[i];
        proof {
            reveal_strlit("?");
            reveal_strlit(" ");
            assert(signature@.take(i + 1).drop_last() == signature@.take(i as int));
            assert(signature@.take(i + 1).last() == (byte, wildcard));
        }
        if i > 0 {
            out.append(" ");
        }
        if wildcard {
            out.append("?");
        } else {
            push_hex2(&mut out, byte);
        }
        proof {
            if i == 0 {
                assert(out@ =~= signature_token_text((byte, wildcard)));
                assert(signature@.take(1) =~= seq![(byte, wildcard)]);
            } else {
                assert(out@ =~= ida_signature_text(signature@.take(i as int)) + seq![' '] + signature_token_text((byte, wildcard)));
            }
        }
        i = i + 1;
    }
    proof {
        assert(signature@.take(signature@.len() as int) == signature@);
    }
    out
}

/// A signature without its trailing wildcard bytes.
pub open spec fn trim_wildcards(s: Seq<(u8, bool)>) -> Seq<(u8, bool)>
    decreases s.len(),
{
    if s.len() > 0 && s.last().1 {
        trim_wildcards(s.drop_last())
    } else {
        s
    }
}

/// Drops the trailing wildcard bytes of a signature.
pub fn trim_signature(signature: &mut Vec<(u8, bool)>)
    ensures
        final(signature)@ == trim_wildcards(old(signature)@),
        final(signature)@ == old(signature)@.take(final(signature)@.len() as int),
        forall|k: int| final(signature)@.len() <= k < old(signature)@.len() ==> (#[trigger] old(signature)@[k]).1,
        final(signature)@.len() == 0 || !final(signature)@.last().1,
{
    let ghost orig = signature@;
    while signature.len() > 0 && signature[signature.len() - 1].1
        invariant
            signature@ == orig.take(signature@.len() as int),
            trim_wildcards(orig) == trim_wildcards(signature@),
            signature@.len() <= orig.len(),
            forall|k: int| signature@.len() <= k < orig.len() ==> (#[trigger] orig[k]).1,
        decreases signature@.len(),
    {
        signature.pop();
        proof {
            assert(signature@ =~= orig.take(signature@.len() as int));
        }
    }
}

/// Two strings are equal exactly when their UTF-8 bytes are (decoding
/// gives the characters back).
pub(crate) fn str_eq(a: &str, b: &str) -> (r: bool)
    ensures
        r == (a@ == b@),
{
    let x = a.as_bytes();
    let y = b.as_bytes();
    proof {
        vstd::utf8::encode_utf8_decode_utf8(a@);
        vstd::utf8::encode_utf8_decode_utf8(b@);
    }
    if x.len() != y.len() {
        proof {
            if a@ == b@ {
                assert(x@ == y@);
            }
        }
        return false;
    }
    let mut i: usize = 0;
    while i < x.len()
        invariant
            x@ == vstd::utf8::encode_utf8(a@),
            y@ == vstd::utf8::encode_utf8(b@),
            x@.len() == y@.len(),
            i <= x@.len(),
            forall|k: int| 0 <= k < i ==> x@[k] == y@[k],
        decreases x@.len() - i,
    {
        if x[i] != y[i] {
            proof {
                if a@ == b@ {
                    assert(x@ == y@);
                }
            }
            return false;
        }
        i = i + 1;
    }
    assert(x@ =~= y@);
    true
}

/// The Unicode lowercase mapping of a string, as `str::to_lowercase` computes it.
pub uninterp spec fn unicode_lowercase(s: Seq<char>) -> Seq<char>;

/// `str::to_lowercase`.
#[verifier::external_body]
pub(crate) fn to_lowercase(s: &str) -> (r: String)
    ensures
        r@ == unicode_lowercase(s@),
{
    s.to_lowercase()
}

/// `needle` occurs in `hay` as a contiguous run of characters.
pub open spec fn contains_chars(hay: Seq<char>, needle: Seq<char>) -> bool {
    exists|i: int| 0 <= i && i + needle.len() <= hay.len() && #[trigger] hay.subrange(i, i + needle.len()) == needle
}

/// The characters of a string, in order.
pub(crate) fn str_chars(s: &str) -> (r: Vec<char>)
    ensures
        r@ == s@,
{
    let n = s.unicode_len();
    let mut v: Vec<char> = Vec::new();
    let mut i: usize = 0;
    while i < n
        invariant
            n == s@.len(),
            i <= n,
            v@ == s@.take(i as int),
        decreases n - i,
    {
        let c = s.get_char(i);
        v.push(c);
        i = i + 1;
        proof {
            assert(v@ =~= s@.take(i as int));
        }
    }
    proof {
        assert(s@.take(n as int) =~= s@);
    }
    v
}

/// `needle` occurs in `hay` at character position `at`.
fn chars_match_at(hay: &Vec<char>, needle: &Vec<char>, at: usize) -> (r: bool)
    requires
        at + needle@.len() <= hay@.len(),
    ensures
        r == (hay@.subrange(at as int, at + needle@.len()) == needle@),
{
    let mut k: usize = 0;
    while k < needle.len()
        invariant
            at + needle@.len() <= hay@.len(),
            hay@.len() == hay.len(),
            k <= needle@.len(),
            forall|j: int| 0 <= j < k ==> hay@[at + j] == needle@[j],
        decreases needle@.len() - k,
    {
        if hay[at + k] != needle[k] {
            proof {
                assert(hay@.subrange(at as int, at + needle@.len())[k as int] != needle@[k as int]);
            }
            return false;
        }
        k = k + 1;
    }
    assert(hay@.subrange(at as int, at + needle@.len()) =~= needle@);
    true
}

/// Whether `needle` occurs in `hay`, as `str::contains` with a string
/// pattern answers: the empty string occurs everywhere.
pub(crate) fn str_contains(hay: &str, needle: &str) -> (r: bool)
    ensures
        r == contains_chars(hay@, needle@),
{
    let h = str_chars(hay);
    let n = str_chars(needle);
    if n.len() > h.len() {
        return false;
    }
    let last = h.len() - n.len();
    let mut at: usize = 0;
    loop
        invariant
            h@ == hay@,
            n@ == needle@,
            last + n@.len() == h@.len(),
            at <= last,
            forall|i: int| 0 <= i < at ==> #[trigger] hay@.subrange(i, i + needle@.len()) != needle@,
        decreases last - at,
    {
        if chars_match_at(&h, &n, at) {
            return true;
        }
        if at == last {
            return false;
        }
        at = at + 1;
    }
}


/// The ASCII lowercase of a character: `A`-`Z` become `a`-`z`, others stay.
pub open spec fn ascii_lower(c: char) -> char {
    if 'A' <= c && c <= 'Z' {
        ((c as u32) + 32) as char
    } else {
        c
    }
}

/// `str::to_ascii_lowercase`: ASCII letters mapped to lowercase, every
/// other character unchanged.
#[verifier::external_body]
pub(crate) fn ascii_lowercase(s: &str) -> (r: String)
    ensures
        r@ == s@.map_values(|c: char| ascii_lower(c)),
{
    s.to_ascii_lowercase()
}


/// `s` begins with `prefix`.
pub open spec fn starts_with_chars(s: Seq<char>, prefix: Seq<char>) -> bool {
    prefix.len() <= s.len() && s.take(prefix.len() as int) == prefix
}

/// Whether `s` begins with `prefix`, as `str::starts_with` with a string
/// pattern answers.
pub(crate) fn str_starts_with(s: &str, prefix: &str) -> (r: bool)
    ensures
        r == starts_with_chars(s@, prefix@),
{
    let h = str_chars(s);
    let p = str_chars(prefix);
    if p.len() > h.len() {
        return false;
    }
    let r = chars_match_at(&h, &p, 0);
    proof {
        assert(h@.subrange(0, p@.len() as int) == h@.take(p@.len() as int));
    }
    r
}

} // verus!
