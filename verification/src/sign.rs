//! Text encodings around signing: reading a hex-encoded Ed25519 seed,
//! and hex-encoding a signature the way metadata and `index.json.sig`
//! publish it.

use vstd::prelude::*;
use vstd::utf8::encode_utf8;
use crate::error::ToolkitError;
use crate::text::decimal;

verus! {

/// A character with the Unicode `White_Space` property (what
/// `char::is_whitespace` tests).
pub open spec fn is_white(c: char) -> bool {
    ('\u{9}' <= c && c <= '\u{d}') || c == ' ' || c == '\u{85}' || c == '\u{a0}' || c
        == '\u{1680}' || ('\u{2000}' <= c && c <= '\u{200a}') || c == '\u{2028}' || c == '\u{2029}'
        || c == '\u{202f}' || c == '\u{205f}' || c == '\u{3000}'
}

/// Whether `c` is Unicode white space.
pub fn is_whitespace(c: char) -> (r: bool)
    ensures
        r == is_white(c),
{
    ('\u{9}' <= c && c <= '\u{d}') || c == ' ' || c == '\u{85}' || c == '\u{a0}' || c == '\u{1680}'
        || ('\u{2000}' <= c && c <= '\u{200a}') || c == '\u{2028}' || c == '\u{2029}' || c
        == '\u{202f}' || c == '\u{205f}' || c == '\u{3000}'
}

/// `s` without its leading white space.
pub open spec fn trim_start(s: Seq<char>) -> Seq<char>
    decreases s.len(),
{
    if s.len() > 0 && is_white(s[0]) {
        trim_start(s.drop_first())
    } else {
        s
    }
}

/// `s` without its trailing white space.
pub open spec fn trim_end(s: Seq<char>) -> Seq<char>
    decreases s.len(),
{
    if s.len() > 0 && is_white(s.last()) {
        trim_end(s.drop_last())
    } else {
        s
    }
}

/// `s` without leading and trailing white space (what `str::trim` gives).
pub open spec fn trimmed(s: Seq<char>) -> Seq<char> {
    trim_end(trim_start(s))
}

/// `s` with leading and trailing white space removed.
pub fn trim(s: &str) -> (r: &str)
    ensures
        r@ == trimmed(s@),
{
    let n = s.unicode_len();
    let mut i: usize = 0;
    assert(s@.skip(0) =~= s@);
    while i < n && is_whitespace(s.get_char(i))
        invariant
            n == s@.len(),
            i <= n,
            trim_start(s@) == trim_start(s@.skip(i as int)),
        decreases n - i,
    {
        assert(s@.skip(i as int).drop_first() =~= s@.skip(i + 1));
        i = i + 1;
    }
    assert(trim_start(s@) == s@.skip(i as int)) by {
        if i < n {
            assert(s@.skip(i as int)[0] == s@[i as int]);
        }
    }
    let mut j: usize = n;
    assert(s@.subrange(i as int, n as int) =~= s@.skip(i as int));
    while j > i && is_whitespace(s.get_char(j - 1))
        invariant
            n == s@.len(),
            i <= j <= n,
            trimmed(s@) == trim_end(s@.subrange(i as int, j as int)),
        decreases j,
    {
        assert(s@.subrange(i as int, j as int).drop_last() =~= s@.subrange(i as int, j - 1));
        j = j - 1;
    }
    assert(trim_end(s@.subrange(i as int, j as int)) == s@.subrange(i as int, j as int)) by {
        if j > i {
            assert(s@.subrange(i as int, j as int).last() == s@[j - 1]);
        }
    }
    s.substring_char(i, j)
}

/// How `hex` reports a text it cannot decode.
#[derive(Debug, Clone, Copy, PartialEq, Eq, Structural)]
pub enum HexDecodeError {
    /// The byte at `index`, read as a character, is not a hex digit.
    InvalidHexCharacter { c: char, index: usize },
    /// The text has an odd number of bytes.
    OddLength,
    /// The text does not fit the fixed-size output.
    InvalidStringLength,
}

/// The value of hex digit `b` (either case), if it is one.
pub open spec fn hex_value(b: u8) -> Option<u8> {
    if 48 <= b && b <= 57 {
        Some((b - 48) as u8)
    } else if 97 <= b && b <= 102 {
        Some((b - 87) as u8)
    } else if 65 <= b && b <= 70 {
        Some((b - 55) as u8)
    } else {
        None
    }
}

/// Decoding of the byte pairs of `b` from position `i` on, stopping at
/// the first byte that is not a hex digit.
pub open spec fn decode_pairs(b: Seq<u8>, i: int) -> Result<Seq<u8>, HexDecodeError>
    decreases b.len() - i,
{
    if i < 0 || i + 1 >= b.len() {
        Ok(seq![])
    } else if hex_value(b[i]) is None {
        Err(HexDecodeError::InvalidHexCharacter { c: b[i] as char, index: i as usize })
    } else if hex_value(b[i + 1]) is None {
        Err(HexDecodeError::InvalidHexCharacter { c: b[i + 1] as char, index: (i + 1) as usize })
    } else {
        match decode_pairs(b, i + 2) {
            Ok(rest) => Ok(
                seq![(hex_value(b[i])->0 * 16 + hex_value(b[i + 1])->0) as u8] + rest,
            ),
            Err(e) => Err(e),
        }
    }
}

/// What `hex::decode` gives for bytes `b`: `OddLength` for an odd count,
/// else the first non-digit byte's error, else one byte per digit pair.
pub open spec fn spec_hex_decode(b: Seq<u8>) -> Result<Seq<u8>, HexDecodeError> {
    if b.len() % 2 != 0 {
        Err(HexDecodeError::OddLength)
    } else {
        decode_pairs(b, 0)
    }
}

/// Lower-case hex digit `d` (`0..16`).
pub open spec fn hex_digit(d: int) -> char {
    seq!['0', '1', '2', '3', '4', '5', '6', '7', '8', '9', 'a', 'b', 'c', 'd', 'e', 'f'][d]
}

/// Lower-case hex text of `b`: two digits per byte, high nibble first.
pub open spec fn spec_hex_encode(b: Seq<u8>) -> Seq<char> {
    Seq::new(
        2 * b.len(),
        |k: int|
            if k % 2 == 0 {
                hex_digit((b[k / 2] / 16) as int)
            } else {
                hex_digit((b[k / 2] % 16) as int)
            },
    )
}

/// `hex::decode` on raw bytes: odd length is `OddLength`; otherwise pairs
/// are decoded in order and the first non-hex-digit byte (as a
/// character, with its position) is reported.
#[verifier::external_body]
fn hex_decode(data: &[u8]) -> (r: Result<Vec<u8>, HexDecodeError>)
    ensures
        match (r, spec_hex_decode(data@)) {
            (Ok(v), Ok(s)) => v@ == s,
            (Err(e), Err(se)) => e == se,
            _ => false,
        },
{
    match hex::decode(data) {
        Ok(v) => Ok(v),
        Err(hex::FromHexError::InvalidHexCharacter { c, index }) => Err(
            HexDecodeError::InvalidHexCharacter { c, index },
        ),
        Err(hex::FromHexError::OddLength) => Err(HexDecodeError::OddLength),
        Err(hex::FromHexError::InvalidStringLength) => Err(HexDecodeError::InvalidStringLength),
    }
}

/// The message `hex::FromHexError`'s `Display` gives for `e`.
pub uninterp spec fn hex_error_message(e: HexDecodeError) -> Seq<char>;

/// `hex::FromHexError`'s `Display` text: fixed texts for an odd length
/// and a wrong length; for an invalid character, "Invalid character
/// {c:?} at position {index}", stated here for printable ASCII characters
/// that `Debug` quotes without escaping; for others the escaping is left
/// to the name `hex_error_message`.
#[verifier::external_body]
fn hex_error_text(e: HexDecodeError) -> (r: String)
    ensures
        r@ == hex_error_message(e),
        e == HexDecodeError::OddLength ==> r@ == "Odd number of digits"@,
        e == HexDecodeError::InvalidStringLength ==> r@ == "Invalid string length"@,
        e matches HexDecodeError::InvalidHexCharacter { c, index } ==> (' ' <= c <= '~' && c != '\''
            && c != '\\' ==> r@ == "Invalid character '"@ + seq![c] + "' at position "@ + decimal(
            index as nat,
        )),
{
    let err = match e {
        HexDecodeError::InvalidHexCharacter { c, index } => hex::FromHexError::InvalidHexCharacter {
            c,
            index,
        },
        HexDecodeError::OddLength => hex::FromHexError::OddLength,
        HexDecodeError::InvalidStringLength => hex::FromHexError::InvalidStringLength,
    };
    err.to_string()
}

/// `hex::encode`: lower-case hex, two digits per byte, high nibble first.
#[verifier::external_body]
fn hex_encode(data: &[u8]) -> (r: String)
    ensures
        r@ == spec_hex_encode(data@),
{
    hex::encode(data)
}

/// What `seed_from_hex` gives for a seed file at `path` with text `text`.
pub open spec fn spec_seed(path: Seq<char>, text: Seq<char>) -> Result<Seq<u8>, Seq<char>> {
    match spec_hex_decode(encode_utf8(trimmed(text))) {
        Err(e) => Err("seed at "@ + path + " is not valid hex: "@ + hex_error_message(e)),
        Ok(b) => if b.len() == 32 {
            Ok(b)
        } else {
            Err("seed at "@ + path + " must be exactly 32 bytes"@)
        },
    }
}

/// Reads a 32-byte Ed25519 seed from the text of a hex-encoded seed file
/// (surrounding white space ignored); `path` names the file in errors.
pub fn seed_from_hex(path: &str, text: &str) -> (r: Result<[u8; 32], ToolkitError>)
    ensures
        match (r, spec_seed(path@, text@)) {
            (Ok(seed), Ok(b)) => seed@ == b,
            (Err(ToolkitError::Recipe(m)), Err(sm)) => m@ == sm,
            _ => false,
        },
        r matches Ok(seed) ==> spec_hex_decode(encode_utf8(trimmed(text@))) == Ok::<
            Seq<u8>,
            HexDecodeError,
        >(seed@),
        spec_hex_decode(encode_utf8(trimmed(text@))) matches Ok(b) && b.len() != 32 ==> (r matches Err(
            ToolkitError::Recipe(m),
        ) && m@ == "seed at "@ + path@ + " must be exactly 32 bytes"@),
{
    let t = trim(text);
    let bytes = t.as_bytes();
    match hex_decode(bytes) {
        Err(e) => {
            let mut m = String::from_str("seed at ");
            m.append(path);
            m.append(" is not valid hex: ");
            let reason = hex_error_text(e);
            m.append(reason.as_str());
            Err(ToolkitError::Recipe(m))
        },
        Ok(v) => {
            if v.len() != 32 {
                let mut m = String::from_str("seed at ");
                m.append(path);
                m.append(" must be exactly 32 bytes");
                return Err(ToolkitError::Recipe(m));
            }
            let mut seed = [0u8; 32];
            let mut i: usize = 0;
            while i < 32
                invariant
                    v@.len() == 32,
                    i <= 32,
                    forall|k: int| 0 <= k < i ==> seed@[k] == v@[k],
                decreases 32 - i,
            {
                seed[i] = v[i];
                i = i + 1;
            }
            assert(seed@ =~= v@);
            Ok(seed)
        },
    }
}

/// The hex text under which a signature is published: in a metadata
/// entry's `signature` field, in `<archive>.sig`, and in `index.json.sig`.
pub fn signature_hex(signature: &[u8]) -> (r: String)
    ensures
        r@ == spec_hex_encode(signature@),
{
    hex_encode(signature)
}

proof fn lemma_hex_digit(d: int)
    requires
        0 <= d < 16,
    ensures
        !is_white(hex_digit(d)),
        '\0' <= hex_digit(d) <= '\u{7f}',
        hex_value(hex_digit(d) as u8) == Some(d as u8),
{
    let digits = seq!['0', '1', '2', '3', '4', '5', '6', '7', '8', '9', 'a', 'b', 'c', 'd', 'e', 'f'];
    assert(hex_digit(d) == digits[d]);
}

/// A hex digit of either case.
pub open spec fn hex_char(c: char) -> bool {
    ('0' <= c && c <= '9') || ('a' <= c && c <= 'f') || ('A' <= c && c <= 'F')
}

/// `h` spells the bytes `b` in hex, two digits per byte, high nibble
/// first, each digit in either case.
pub open spec fn spells_in_hex(h: Seq<char>, b: Seq<u8>) -> bool {
    &&& h.len() == 2 * b.len()
    &&& forall|i: int| 0 <= i < h.len() ==> hex_char(#[trigger] h[i])
    &&& forall|k: int|
        0 <= k < b.len() ==> hex_value(h[2 * k] as u8)->0 * 16 + hex_value(h[2 * k + 1] as u8)->0
            == #[trigger] b[k]
}

/// Only white space.
pub open spec fn all_white(s: Seq<char>) -> bool {
    forall|i: int| 0 <= i < s.len() ==> is_white(#[trigger] s[i])
}

proof fn lemma_hex_char(c: char)
    requires
        hex_char(c),
    ensures
        !is_white(c),
        '\0' <= c <= '\u{7f}',
        hex_value(c as u8) is Some,
{
}

proof fn lemma_decode_spelled(h: Seq<char>, b: Seq<u8>, bytes: Seq<u8>, k: int)
    requires
        0 <= k <= b.len(),
        spells_in_hex(h, b),
        bytes.len() == h.len(),
        forall|i: int| 0 <= i < bytes.len() ==> #[trigger] bytes[i] == h[i] as u8,
    ensures
        decode_pairs(bytes, 2 * k) == Ok::<Seq<u8>, HexDecodeError>(b.skip(k)),
    decreases b.len() - k,
{
    if k == b.len() {
        assert(b.skip(k) =~= Seq::<u8>::empty());
    } else {
        lemma_hex_char(h[2 * k]);
        lemma_hex_char(h[2 * k + 1]);
        assert(bytes[2 * k] == h[2 * k] as u8);
        assert(bytes[2 * k + 1] == h[2 * k + 1] as u8);
        assert(hex_value(h[2 * k] as u8)->0 * 16 + hex_value(h[2 * k + 1] as u8)->0 == b[k]);
        lemma_decode_spelled(h, b, bytes, k + 1);
        assert(seq![b[k]] + b.skip(k + 1) =~= b.skip(k));
    }
}

proof fn lemma_trim_start_white(lead: Seq<char>, x: Seq<char>)
    requires
        all_white(lead),
    ensures
        trim_start(lead + x) == trim_start(x),
    decreases lead.len(),
{
    if lead.len() > 0 {
        assert((lead + x)[0] == lead[0]);
        assert((lead + x).drop_first() =~= lead.drop_first() + x);
        lemma_trim_start_white(lead.drop_first(), x);
    } else {
        assert(lead + x =~= x);
    }
}

proof fn lemma_trim_end_white(x: Seq<char>, trail: Seq<char>)
    requires
        all_white(trail),
    ensures
        trim_end(x + trail) == trim_end(x),
    decreases trail.len(),
{
    if trail.len() > 0 {
        assert((x + trail).last() == trail.last());
        assert((x + trail).drop_last() =~= x + trail.drop_last());
        lemma_trim_end_white(x, trail.drop_last());
    } else {
        assert(x + trail =~= x);
    }
}

/// A seed is accepted only when the trimmed text decodes to exactly 32
/// bytes, and it is then all of those bytes; hex that decodes to any other
/// number of bytes (a 64-byte key, a truncated one) is refused as not
/// being 32 bytes, never cut or padded to size.
pub proof fn lemma_seed_is_exactly_the_decoded_bytes(path: Seq<char>, text: Seq<char>)
    ensures
        spec_seed(path, text) matches Ok(seed) ==> seed.len() == 32 && spec_hex_decode(
            encode_utf8(trimmed(text)),
        ) == Ok::<Seq<u8>, HexDecodeError>(seed),
        spec_hex_decode(encode_utf8(trimmed(text))) matches Ok(b) && b.len() != 32 ==> spec_seed(
            path,
            text,
        ) == Err::<Seq<u8>, Seq<char>>("seed at "@ + path + " must be exactly 32 bytes"@),
{
}

/// A seed file holding 32 bytes in hex, in either case and with any white
/// space around it (as `openssl rand -hex 32 > seed.hex` writes one),
/// reads back as exactly those bytes.
pub proof fn lemma_seed_file_reads_back(
    path: Seq<char>,
    seed: Seq<u8>,
    lead: Seq<char>,
    h: Seq<char>,
    trail: Seq<char>,
)
    requires
        seed.len() == 32,
        spells_in_hex(h, seed),
        all_white(lead),
        all_white(trail),
    ensures
        spec_seed(path, lead + h + trail) == Ok::<Seq<u8>, Seq<char>>(seed),
{
    lemma_hex_char(h[0]);
    lemma_hex_char(h[h.len() - 1]);
    assert(lead + h + trail =~= lead + (h + trail));
    lemma_trim_start_white(lead, h + trail);
    assert((h + trail)[0] == h[0]);
    assert(trim_start(h + trail) == h + trail);
    lemma_trim_end_white(h, trail);
    assert(trim_end(h) == h);
    assert(trimmed(lead + h + trail) == h);
    assert forall|i: int| 0 <= i < h.len() implies '\0' <= #[trigger] h[i] <= '\u{7f}' by {
        lemma_hex_char(h[i]);
    }
    assert(vstd::utf8::is_ascii_chars(h));
    vstd::utf8::is_ascii_chars_encode_utf8(h);
    let bytes = encode_utf8(h);
    assert forall|i: int| 0 <= i < bytes.len() implies #[trigger] bytes[i] == h[i] as u8 by {
        assert(h[i] as u8 == bytes[i]);
    }
    lemma_decode_spelled(h, seed, bytes, 0);
    assert(seed.skip(0) =~= seed);
}

/// A seed file holding the lower-case hex text of a 32-byte seed, as
/// `signature_hex` writes it, reads back as exactly that seed.
pub proof fn lemma_seed_file_roundtrip(path: Seq<char>, seed: Seq<u8>)
    requires
        seed.len() == 32,
    ensures
        spec_seed(path, spec_hex_encode(seed)) == Ok::<Seq<u8>, Seq<char>>(seed),
{
    let h = spec_hex_encode(seed);
    let none = Seq::<char>::empty();
    assert forall|i: int| 0 <= i < h.len() implies hex_char(#[trigger] h[i]) by {
        if i % 2 == 0 {
            lemma_hex_digit((seed[i / 2] / 16) as int);
        } else {
            lemma_hex_digit((seed[i / 2] % 16) as int);
        }
    }
    assert forall|k: int| 0 <= k < seed.len() implies hex_value(h[2 * k] as u8)->0 * 16 + hex_value(
        h[2 * k + 1] as u8,
    )->0 == #[trigger] seed[k] by {
        lemma_hex_digit((seed[k] / 16) as int);
        lemma_hex_digit((seed[k] % 16) as int);
        assert(h[2 * k] == hex_digit((seed[k] / 16) as int));
        assert(h[2 * k + 1] == hex_digit((seed[k] % 16) as int));
    }
    lemma_seed_file_reads_back(path, seed, none, h, none);
    assert(none + h + none =~= h);
}

/// Every byte becomes two hex digits: a 64-byte Ed25519 signature is
/// published as 128 characters.
pub proof fn lemma_signature_hex_len(signature: Seq<u8>)
    ensures
        spec_hex_encode(signature).len() == 2 * signature.len(),
{
}

/// Distinct signatures are published as distinct texts.
pub proof fn lemma_signature_hex_injective(a: Seq<u8>, b: Seq<u8>)
    requires
        spec_hex_encode(a) == spec_hex_encode(b),
    ensures
        a == b,
{
    assert(spec_hex_encode(a).len() == 2 * a.len());
    assert(spec_hex_encode(b).len() == 2 * b.len());
    assert(a.len() == b.len());
    assert forall|k: int| 0 <= k < a.len() implies a[k] == b[k] by {
        let ha = spec_hex_encode(a);
        let hb = spec_hex_encode(b);
        assert(ha[2 * k] == hb[2 * k]);
        assert(ha[2 * k + 1] == hb[2 * k + 1]);
        lemma_hex_digit((a[k] / 16) as int);
        lemma_hex_digit((a[k] % 16) as int);
        lemma_hex_digit((b[k] / 16) as int);
        lemma_hex_digit((b[k] % 16) as int);
        assert(hex_value(hex_digit((a[k] / 16) as int) as u8) == hex_value(hex_digit((b[k] / 16) as int) as u8));
        assert(hex_value(hex_digit((a[k] % 16) as int) as u8) == hex_value(hex_digit((b[k] % 16) as int) as u8));
    }
    assert(a =~= b);
}

} // verus!
