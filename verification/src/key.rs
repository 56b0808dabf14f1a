//! Key codec: object keys as the browser names them, and as backend paths.
//!
//! A key is a `/`-separated list of segments. On the way to the backend each
//! segment is percent-escaped on its own, so that a `/` in the path always
//! marks a boundary the caller chose. Escaping starts from the decoded key,
//! never from the text of the request line, so nothing is escaped twice.
//!
//! Segments are passed on as they come. An empty one stays empty; nothing is
//! put in its place. The segments `.` and `..` are escaped like any other
//! text, to `%2E` and `%2E%2E`; they are neither resolved nor refused here.
//! What such a key names is for the backend to say, and a transport that
//! tidies up addresses on the way has a say in it too.

use vstd::prelude::*;
use vstd::string::*;
use vstd::utf8::*;
use crate::text::{all_ascii, ascii, lemma_ascii_is_utf8, string_from_utf8};

verus! {

/// The byte that separates the segments of a key.
pub const SLASH: u8 = 0x2f;

/// The byte that opens an escape.
pub const PERCENT: u8 = 0x25;

/// ASCII letters and digits: the bytes that are never escaped.
pub open spec fn is_unreserved(b: u8) -> bool {
    (0x30 <= b <= 0x39) || (0x41 <= b <= 0x5a) || (0x61 <= b <= 0x7a)
}

/// The upper-case hexadecimal digit for `d` in `0..16`.
pub open spec fn hex_upper(d: int) -> u8 {
    if d < 10 {
        (0x30 + d) as u8
    } else {
        (0x41 + d - 10) as u8
    }
}

/// What one byte of a segment becomes: itself if unreserved, else `%` and
/// two upper-case hexadecimal digits.
pub open spec fn escape_byte(b: u8) -> Seq<u8> {
    if is_unreserved(b) {
        seq![b]
    } else {
        seq![PERCENT, hex_upper(b as int / 16), hex_upper(b as int % 16)]
    }
}

/// The escaped form of a segment.
pub open spec fn escape(seg: Seq<u8>) -> Seq<u8>
    decreases seg.len(),
{
    if seg.len() == 0 {
        Seq::empty()
    } else {
        escape(seg.drop_last()) + escape_byte(seg.last())
    }
}

/// The pieces of `s` between occurrences of `sep`. There is always at least
/// one piece; `n` separators give `n + 1` pieces, empty ones included.
pub open spec fn split(s: Seq<u8>, sep: u8) -> Seq<Seq<u8>>
    decreases s.len(),
{
    if s.len() == 0 {
        seq![Seq::empty()]
    } else {
        let before = split(s.drop_last(), sep);
        if s.last() == sep {
            before.push(Seq::empty())
        } else {
            before.drop_last().push(before.last().push(s.last()))
        }
    }
}

/// The pieces with `sep` between each two of them.
pub open spec fn join(parts: Seq<Seq<u8>>, sep: u8) -> Seq<u8>
    decreases parts.len(),
{
    if parts.len() == 0 {
        Seq::empty()
    } else if parts.len() == 1 {
        parts[0]
    } else {
        join(parts.drop_last(), sep).push(sep) + parts.last()
    }
}

/// The backend path of a key, as bytes: split on `/`, escape each segment,
/// join with `/`.
pub open spec fn encode_key_bytes(raw: Seq<u8>) -> Seq<u8> {
    join(split(raw, SLASH).map_values(|seg: Seq<u8>| escape(seg)), SLASH)
}

/// The backend path of a key, as text. `raw` is the UTF-8 form of the key.
pub open spec fn encode_key(raw: Seq<u8>) -> Seq<char> {
    ascii(encode_key_bytes(raw))
}

/// What one byte of a key becomes in the path: a `/` stays, any other byte
/// is escaped.
pub open spec fn encode_byte(b: u8) -> Seq<u8> {
    if b == SLASH {
        seq![SLASH]
    } else {
        escape_byte(b)
    }
}

/// A hexadecimal digit, in either case.
pub open spec fn is_hex_digit(b: u8) -> bool {
    (0x30 <= b <= 0x39) || (0x41 <= b <= 0x46) || (0x61 <= b <= 0x66)
}

/// The value of a hexadecimal digit, either case.
pub open spec fn hex_value(b: u8) -> int {
    if 0x30 <= b <= 0x39 {
        b - 0x30
    } else if 0x41 <= b <= 0x46 {
        b - 0x41 + 10
    } else {
        b - 0x61 + 10
    }
}

/// Whether an escape starts at the head of `s`: `%` and two hexadecimal digits.
pub open spec fn escape_at_head(s: Seq<u8>) -> bool {
    s.len() >= 3 && s[0] == PERCENT && is_hex_digit(s[1]) && is_hex_digit(s[2])
}

/// The bytes that a path stands for: each escape gives its byte, every other
/// byte (a `%` that opens no escape too) gives itself.
pub open spec fn unescape(s: Seq<u8>) -> Seq<u8>
    decreases s.len(),
{
    if s.len() == 0 {
        Seq::empty()
    } else if escape_at_head(s) {
        seq![(hex_value(s[1]) * 16 + hex_value(s[2])) as u8] + unescape(s.skip(3))
    } else {
        seq![s[0]] + unescape(s.skip(1))
    }
}

/// The key that a backend path stands for, where its bytes are UTF-8.
pub open spec fn decode_path(path: Seq<u8>) -> Option<Seq<char>> {
    let raw = unescape(path);
    if valid_utf8(raw) {
        Some(decode_utf8(raw))
    } else {
        None
    }
}

/// A key in normal form: none of its segments is empty, but for the last,
/// which is empty where the key ends in `/` and where the key is empty.
pub open spec fn is_normal(raw: Seq<u8>) -> bool {
    let parts = split(raw, SLASH);
    forall|i: int| 0 <= i < parts.len() - 1 ==> (#[trigger] parts[i]).len() > 0
}

/// `split` never gives an empty list.
pub proof fn lemma_split_nonempty(s: Seq<u8>, sep: u8)
    ensures
        split(s, sep).len() >= 1,
{
}

/// Encoding goes byte by byte: one more byte of key adds `encode_byte` of it.
pub proof fn lemma_encode_push(s: Seq<u8>, b: u8)
    ensures
        encode_key_bytes(s.push(b)) == encode_key_bytes(s) + encode_byte(b),
{
    let esc = |seg: Seq<u8>| escape(seg);
    let before = split(s, SLASH);
    let mapped = before.map_values(esc);
    assert(s.push(b).drop_last() =~= s);
    if b == SLASH {
        let after = before.push(Seq::empty()).map_values(esc);
        assert(after.drop_last() =~= mapped);
    } else {
        let grown = before.last().push(b);
        let after = before.drop_last().push(grown).map_values(esc);
        assert(grown.drop_last() =~= before.last());
        if mapped.len() > 1 {
            assert(after.drop_last() =~= mapped.drop_last());
        }
    }
}

/// A stretch of key without `/` is one segment, or the end of one: it adds
/// its escaped form to the path.
pub proof fn lemma_encode_append_segment(s: Seq<u8>, seg: Seq<u8>)
    requires
        !seg.contains(SLASH),
    ensures
        encode_key_bytes(s + seg) == encode_key_bytes(s) + escape(seg),
    decreases seg.len(),
{
    if seg.len() > 0 {
        let init = seg.drop_last();
        let b = seg.last();
        assert(!init.contains(SLASH)) by {
            if init.contains(SLASH) {
                let i = choose|i: int| 0 <= i < init.len() && init[i] == SLASH;
                assert(seg[i] == SLASH);
            }
        }
        lemma_encode_append_segment(s, init);
        lemma_encode_push(s + init, b);
        assert((s + init).push(b) =~= s + seg);
        assert(encode_key_bytes(s) + escape(init) + escape_byte(b) =~= encode_key_bytes(s)
            + escape(seg));
    }
}

/// The path of the empty key is empty.
pub proof fn lemma_encode_empty()
    ensures
        encode_key_bytes(Seq::empty()) == Seq::<u8>::empty(),
{
}

/// A path holds ASCII only.
pub proof fn lemma_encode_is_ascii(raw: Seq<u8>)
    ensures
        all_ascii(encode_key_bytes(raw)),
    decreases raw.len(),
{
    if raw.len() > 0 {
        lemma_encode_is_ascii(raw.drop_last());
        lemma_encode_push(raw.drop_last(), raw.last());
        assert(raw.drop_last().push(raw.last()) =~= raw);
    }
}

/// An escaped byte at the head of a path decodes to that byte, whatever follows.
pub proof fn lemma_unescape_encoded_byte(b: u8, rest: Seq<u8>)
    ensures
        unescape(encode_byte(b) + rest) == seq![b] + unescape(rest),
{
    let s = encode_byte(b) + rest;
    if b == SLASH || is_unreserved(b) {
        assert(s.skip(1) =~= rest);
    } else {
        assert(s.skip(3) =~= rest);
    }
}

/// Decoding undoes encoding, also in front of further text.
pub proof fn lemma_unescape_encoded_prefix(raw: Seq<u8>, rest: Seq<u8>)
    ensures
        unescape(encode_key_bytes(raw) + rest) == raw + unescape(rest),
    decreases raw.len(),
{
    if raw.len() > 0 {
        let init = raw.drop_last();
        let b = raw.last();
        assert(init.push(b) =~= raw);
        lemma_encode_push(init, b);
        assert(encode_key_bytes(raw) + rest =~= encode_key_bytes(init) + (encode_byte(b) + rest));
        lemma_unescape_encoded_prefix(init, encode_byte(b) + rest);
        lemma_unescape_encoded_byte(b, rest);
    }
}

/// Round trip: for every key, decoding its backend path gives the key back.
/// This holds whatever the key contains: spaces, `%`, `/`, text outside
/// ASCII, empty segments.
pub proof fn lemma_decode_encode(key: Seq<char>)
    ensures
        decode_path(encode_utf8(encode_key(encode_utf8(key)))) == Some(key),
{
    let raw = encode_utf8(key);
    lemma_encode_is_ascii(raw);
    lemma_ascii_is_utf8(encode_key_bytes(raw));
    lemma_unescape_encoded_prefix(raw, Seq::empty());
    encode_utf8_valid_utf8(key);
    encode_utf8_decode_utf8(key);
}

/// No two keys share a path: what reaches the backend names one key only.
pub proof fn lemma_encode_injective(a: Seq<u8>, b: Seq<u8>)
    requires
        encode_key_bytes(a) == encode_key_bytes(b),
    ensures
        a == b,
{
    lemma_unescape_encoded_prefix(a, Seq::empty());
    lemma_unescape_encoded_prefix(b, Seq::empty());
    assert(a + Seq::<u8>::empty() =~= a);
    assert(b + Seq::<u8>::empty() =~= b);
}

/// A key of unreserved bytes and `/` only is its own path.
pub proof fn lemma_encode_safe_key(raw: Seq<u8>)
    requires
        forall|i: int| 0 <= i < raw.len() ==> is_unreserved(#[trigger] raw[i]) || raw[i] == SLASH,
    ensures
        encode_key_bytes(raw) == raw,
    decreases raw.len(),
{
    if raw.len() > 0 {
        let init = raw.drop_last();
        lemma_encode_safe_key(init);
        lemma_encode_push(init, raw.last());
        assert(init.push(raw.last()) =~= raw);
    }
}

/// Text without the separator, put behind `s`, lengthens the last piece of `s`.
pub proof fn lemma_split_append_plain(s: Seq<u8>, plain: Seq<u8>)
    requires
        !plain.contains(SLASH),
    ensures
        split(s + plain, SLASH) == split(s, SLASH).drop_last().push(
            split(s, SLASH).last() + plain,
        ),
    decreases plain.len(),
{
    if plain.len() > 0 {
        let init = plain.drop_last();
        let last = split(s, SLASH).last();
        assert(!init.contains(SLASH)) by {
            if init.contains(SLASH) {
                let i = choose|i: int| 0 <= i < init.len() && init[i] == SLASH;
                assert(plain[i] == SLASH);
            }
        }
        lemma_split_append_plain(s, init);
        assert((s + plain).drop_last() =~= s + init);
        assert((last + init).push(plain.last()) =~= last + plain);
    }
}

/// The path has as many segments as the key, each the escaped form of the
/// key's segment at that place: a `/` in the path is a `/` of the key.
pub proof fn lemma_split_encoded(raw: Seq<u8>)
    ensures
        split(encode_key_bytes(raw), SLASH) == split(raw, SLASH).map_values(
            |seg: Seq<u8>| escape(seg),
        ),
    decreases raw.len(),
{
    let esc = |seg: Seq<u8>| escape(seg);
    if raw.len() > 0 {
        let init = raw.drop_last();
        let b = raw.last();
        assert(init.push(b) =~= raw);
        lemma_split_encoded(init);
        lemma_encode_push(init, b);
        let parts = split(init, SLASH);
        let path = encode_key_bytes(init);
        if b == SLASH {
            assert(path + encode_byte(b) =~= path.push(SLASH));
            assert(path.push(SLASH).drop_last() =~= path);
            assert(split(raw, SLASH).map_values(esc) =~= parts.map_values(esc).push(
                Seq::empty(),
            ));
        } else {
            lemma_split_append_plain(path, escape_byte(b));
            assert(parts.last().push(b).drop_last() =~= parts.last());
            assert(split(raw, SLASH).map_values(esc) =~= parts.map_values(esc).drop_last().push(
                parts.map_values(esc).last() + escape_byte(b),
            ));
        }
    }
}

/// A key is in normal form exactly where its path is.
pub proof fn lemma_encode_keeps_normal(raw: Seq<u8>)
    ensures
        is_normal(encode_key_bytes(raw)) == is_normal(raw),
{
    lemma_split_encoded(raw);
    let parts = split(raw, SLASH);
    let escaped = split(encode_key_bytes(raw), SLASH);
    assert forall|i: int| 0 <= i < parts.len() implies ((#[trigger] escaped[i]).len() > 0 <==> (
    #[trigger] parts[i]).len() > 0) by {}
    if is_normal(encode_key_bytes(raw)) {
        assert forall|i: int| 0 <= i < parts.len() - 1 implies (#[trigger] parts[i]).len() > 0 by {
            assert(escaped[i].len() > 0);
        }
    }
}

/// `percent_encoding::utf8_percent_encode` with the set `NON_ALPHANUMERIC`,
/// collected into a `String`. The crate walks the UTF-8 bytes of the segment,
/// leaves ASCII letters and digits as they are and writes every other byte
/// as `%` and its two upper-case hexadecimal digits.
#[verifier::external_body]
fn percent_encode_segment(seg: &str) -> (out: String)
    ensures
        out@ == ascii(escape(seg.spec_bytes())),
{
    percent_encoding::utf8_percent_encode(seg, percent_encoding::NON_ALPHANUMERIC).to_string()
}

/// Cuts `s` at its first `/`: the text before it and the text after it.
fn split_at_slash<'a>(s: &'a str) -> (r: Option<(&'a str, &'a str)>)
    ensures
        match r {
            None => !s.spec_bytes().contains(SLASH),
            Some((head, tail)) => {
                &&& !head.spec_bytes().contains(SLASH)
                &&& s.spec_bytes() == head.spec_bytes().push(SLASH) + tail.spec_bytes()
            },
        },
{
    let bytes = s.as_bytes();
    let n = bytes.len();
    let mut i: usize = 0;
    while i < n
        invariant
            i <= n,
            n == bytes@.len(),
            bytes@ == s.spec_bytes(),
            forall|j: int| 0 <= j < i ==> bytes@[j] != SLASH,
        decreases n - i,
    {
        if bytes[i] == SLASH {
            proof {
                encode_utf8_valid_utf8(s@);
                is_char_boundary_iff_not_is_continuation_byte(bytes@, i as int);
            }
            let (head, tail) = s.split_at(i);
            proof {
                encode_utf8_valid_utf8(tail@);
                reveal_with_fuel(is_char_boundary, 2);
            }
            let (_, rest) = tail.split_at(1);
            proof {
                let h = head.spec_bytes();
                assert(!h.contains(SLASH)) by {
                    if h.contains(SLASH) {
                        let j = choose|j: int| 0 <= j < h.len() && h[j] == SLASH;
                        assert(bytes@[j] == SLASH);
                    }
                }
            }
            return Some((head, rest));
        }
        i += 1;
    }
    assert(!bytes@.contains(SLASH)) by {
        if bytes@.contains(SLASH) {
            let j = choose|j: int| 0 <= j < bytes@.len() && bytes@[j] == SLASH;
            assert(bytes@[j] != SLASH);
        }
    }
    None
}

/// The backend path of a key. `key` is the path suffix as the route matcher
/// hands it over, percent-decoded once already.
///
/// Each segment between two `/` is escaped on its own and the segments are
/// joined with `/` again. Nothing is dropped or replaced: empty segments and
/// dot segments come out as they went in.
pub fn reencode_key(key: &str) -> (out: String)
    ensures
        out@ == encode_key(key.spec_bytes()),
{
    let mut out = String::new();
    let mut rest: &str = key;
    let ghost mut done: Seq<u8> = Seq::empty();
    loop
        invariant
            key.spec_bytes() == done + rest.spec_bytes(),
            out@ == encode_key(done),
        decreases rest.spec_bytes().len(),
    {
        match split_at_slash(rest) {
            Some((seg, tail)) => {
                let escaped = percent_encode_segment(seg);
                out.append(escaped.as_str());
                out.append("/");
                proof {
                    reveal_strlit("/");
                    let with_seg = done + seg.spec_bytes();
                    lemma_encode_append_segment(done, seg.spec_bytes());
                    lemma_encode_push(with_seg, SLASH);
                    done = with_seg.push(SLASH);
                }
                rest = tail;
            },
            None => {
                let escaped = percent_encode_segment(rest);
                out.append(escaped.as_str());
                proof {
                    lemma_encode_append_segment(done, rest.spec_bytes());
                }
                return out;
            },
        }
    }
}

/// Whether a key is in normal form. The route matcher hands keys over in
/// this form; a key that is not is passed on all the same, as it is.
pub fn key_is_normal(key: &str) -> (r: bool)
    ensures
        r == is_normal(key.spec_bytes()),
{
    let bytes = key.as_bytes();
    let n = bytes.len();
    let mut normal = true;
    let mut last_empty = true;
    let mut i: usize = 0;
    while i < n
        invariant
            i <= n,
            n == bytes@.len(),
            bytes@ == key.spec_bytes(),
            normal == is_normal(bytes@.take(i as int)),
            last_empty == (split(bytes@.take(i as int), SLASH).last().len() == 0),
        decreases n - i,
    {
        proof {
            let before = bytes@.take(i as int);
            let upto = bytes@.take(i + 1);
            assert(upto.drop_last() =~= before);
            let parts = split(before, SLASH);
            let grown = split(upto, SLASH);
            if is_normal(upto) {
                // All but the last piece of `upto` are not empty: so are all
                // but the last of `before`, and that one too if a `/` follows.
                assert forall|j: int| 0 <= j < parts.len() - 1 implies (#[trigger] parts[j]).len()
                    > 0 by {
                    assert(grown[j].len() > 0);
                }
                if bytes@[i as int] == SLASH {
                    assert(grown[parts.len() - 1].len() > 0);
                }
            }
            if is_normal(before) && (bytes@[i as int] != SLASH || parts.last().len() > 0) {
                assert forall|j: int| 0 <= j < grown.len() - 1 implies (#[trigger] grown[j]).len()
                    > 0 by {}
            }
        }
        if bytes[i] == SLASH {
            normal = normal && !last_empty;
            last_empty = true;
        } else {
            last_empty = false;
        }
        i += 1;
    }
    proof {
        assert(bytes@.take(n as int) =~= bytes@);
    }
    normal
}

/// The value of a hexadecimal digit, if `b` is one.
fn hex_digit(b: u8) -> (r: Option<u8>)
    ensures
        r is Some <==> is_hex_digit(b),
        r matches Some(v) ==> v == hex_value(b),
{
    if 0x30 <= b && b <= 0x39 {
        Some(b - 0x30)
    } else if 0x41 <= b && b <= 0x46 {
        Some(b - 0x41 + 10)
    } else if 0x61 <= b && b <= 0x66 {
        Some(b - 0x61 + 10)
    } else {
        None
    }
}

/// The key that a backend path stands for.
///
/// Every `%` with two hexadecimal digits behind it gives the byte they name;
/// all other text stands for itself. The answer is `None` exactly where the
/// bytes so found are no UTF-8 text.
pub fn decode_key(path: &str) -> (r: Option<String>)
    ensures
        match r {
            Some(key) => decode_path(path.spec_bytes()) == Some(key@),
            None => decode_path(path.spec_bytes()) is None,
        },
{
    let bytes = path.as_bytes();
    let n = bytes.len();
    let mut raw: Vec<u8> = Vec::new();
    let mut i: usize = 0;
    proof {
        assert(bytes@.skip(0) =~= bytes@);
    }
    while i < n
        invariant
            i <= n,
            n == bytes@.len(),
            bytes@ == path.spec_bytes(),
            unescape(bytes@) == raw@ + unescape(bytes@.skip(i as int)),
        decreases n - i,
    {
        let b = bytes[i];
        let mut value: u8 = b;
        let mut width: usize = 1;
        if b == PERCENT && n - i >= 3 {
            match (hex_digit(bytes[i + 1]), hex_digit(bytes[i + 2])) {
                (Some(hi), Some(lo)) => {
                    value = hi * 16 + lo;
                    width = 3;
                },
                _ => {},
            }
        }
        proof {
            let s = bytes@.skip(i as int);
            assert(s.skip(width as int) =~= bytes@.skip(i + width));
            assert(raw@ + (seq![value] + unescape(s.skip(width as int))) =~= raw@.push(value)
                + unescape(s.skip(width as int)));
        }
        raw.push(value);
        i += width;
    }
    string_from_utf8(raw)
}

} // verus!
