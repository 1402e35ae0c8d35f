//! UUIDs as their sixteen bytes, and the `uuid` crate's generator, printer and parser.

use vstd::prelude::*;

use crate::text;

verus! {

/// The canonical text of a UUID: lower-case hexadecimal in groups of 8, 4, 4, 4 and
/// 12 digits, joined by hyphens.
pub open spec fn hyphenated(bytes: Seq<u8>) -> Seq<char> {
    text::hex(bytes.subrange(0, 4)) + seq!['-'] + text::hex(bytes.subrange(4, 6)) + seq!['-']
        + text::hex(bytes.subrange(6, 8)) + seq!['-'] + text::hex(bytes.subrange(8, 10)) + seq!['-']
        + text::hex(bytes.subrange(10, 16))
}

/// A text that denotes a UUID, in letters of either case: its digits alone, its
/// canonical text, that text in braces, or that text as a URN.
pub open spec fn is_uuid_text(s: Seq<char>, bytes: Seq<u8>) -> bool {
    let lower = text::ascii_lowered(s);
    ||| lower == text::hex(bytes)
    ||| lower == hyphenated(bytes)
    ||| lower == seq!['{'] + hyphenated(bytes) + seq!['}']
    ||| lower == "urn:uuid:"@ + hyphenated(bytes)
}

/// The version number of a UUID: the upper half of its seventh byte.
pub open spec fn uuid_version(bytes: Seq<u8>) -> int {
    bytes[6] as int / 16
}

/// `uuid::Uuid::new_v4`: a UUID of random bits, but for its version, which is 4, and
/// its variant, whose two bits at the top of the ninth byte are 1 and 0. Which bits
/// the operating system supplies is left open; the call panics when it supplies none.
#[verifier::external_body]
pub(crate) fn random_uuid() -> (r: [u8; 16])
    ensures
        uuid_version(r@) == 4,
        0x80 <= r@[8] <= 0xbf,
{
    uuid::Uuid::new_v4().into_bytes()
}

/// `uuid::Uuid::hyphenated` and its `Display`: writes the canonical text of a UUID.
#[verifier::external_body]
pub(crate) fn hyphenated_text(bytes: [u8; 16]) -> (s: String)
    ensures
        s@ == hyphenated(bytes@),
{
    uuid::Uuid::from_bytes(bytes).hyphenated().to_string()
}

/// `uuid::Uuid::parse_str`: reads a text that denotes a UUID, and fails exactly on
/// texts that denote none.
#[verifier::external_body]
pub(crate) fn parse_uuid(s: &str) -> (r: Option<[u8; 16]>)
    ensures
        match r {
            Some(bytes) => is_uuid_text(s@, bytes@),
            None => forall|bytes: Seq<u8>| bytes.len() == 16 ==> !#[trigger] is_uuid_text(s@, bytes),
        },
{
    match uuid::Uuid::parse_str(s) {
        Ok(uuid) => Some(uuid.into_bytes()),
        Err(_) => None,
    }
}

/// The canonical text of a UUID has 36 characters, none of them an upper-case letter.
pub proof fn lemma_hyphenated_shape(bytes: Seq<u8>)
    requires
        bytes.len() == 16,
    ensures
        hyphenated(bytes).len() == 36,
        text::ascii_lowered(hyphenated(bytes)) == hyphenated(bytes),
{
    let h = hyphenated(bytes);
    let a = text::hex(bytes.subrange(0, 4));
    let b = text::hex(bytes.subrange(4, 6));
    let c = text::hex(bytes.subrange(6, 8));
    let d = text::hex(bytes.subrange(8, 10));
    let e = text::hex(bytes.subrange(10, 16));
    text::lemma_hex_digits(bytes.subrange(0, 4));
    text::lemma_hex_digits(bytes.subrange(4, 6));
    text::lemma_hex_digits(bytes.subrange(6, 8));
    text::lemma_hex_digits(bytes.subrange(8, 10));
    text::lemma_hex_digits(bytes.subrange(10, 16));
    assert forall|i: int| 0 <= i < h.len() implies text::ascii_lower(#[trigger] h[i]) == h[i] by {
        if i < 8 {
            assert(h[i] == a[i]);
        } else if i == 8 || i == 13 || i == 18 || i == 23 {
            assert(h[i] == '-');
        } else if i < 13 {
            assert(h[i] == b[i - 9]);
        } else if i < 18 {
            assert(h[i] == c[i - 14]);
        } else if i < 23 {
            assert(h[i] == d[i - 19]);
        } else {
            assert(h[i] == e[i - 24]);
        }
    }
    assert(text::ascii_lowered(h) =~= h);
}

/// The canonical text of a UUID holds only digits, letters from `a` to `f` and hyphens.
pub proof fn lemma_hyphenated_chars(bytes: Seq<u8>)
    requires
        bytes.len() == 16,
    ensures
        forall|i: int| #![trigger hyphenated(bytes)[i]]
            0 <= i < hyphenated(bytes).len() ==> '0' <= hyphenated(bytes)[i] <= '9' || 'a'
                <= hyphenated(bytes)[i] <= 'f' || hyphenated(bytes)[i] == '-',
{
    let h = hyphenated(bytes);
    let a = text::hex(bytes.subrange(0, 4));
    let b = text::hex(bytes.subrange(4, 6));
    let c = text::hex(bytes.subrange(6, 8));
    let d = text::hex(bytes.subrange(8, 10));
    let e = text::hex(bytes.subrange(10, 16));
    text::lemma_hex_digits(bytes.subrange(0, 4));
    text::lemma_hex_digits(bytes.subrange(4, 6));
    text::lemma_hex_digits(bytes.subrange(6, 8));
    text::lemma_hex_digits(bytes.subrange(8, 10));
    text::lemma_hex_digits(bytes.subrange(10, 16));
    assert forall|i: int| #![trigger h[i]] 0 <= i < h.len() implies '0' <= h[i] <= '9' || 'a'
        <= h[i] <= 'f' || h[i] == '-' by {
        if i < 8 {
            assert(h[i] == a[i]);
        } else if i == 8 || i == 13 || i == 18 || i == 23 {
            assert(h[i] == '-');
        } else if i < 13 {
            assert(h[i] == b[i - 9]);
        } else if i < 18 {
            assert(h[i] == c[i - 14]);
        } else if i < 23 {
            assert(h[i] == d[i - 19]);
        } else {
            assert(h[i] == e[i - 24]);
        }
    }
}

/// Different UUIDs have different canonical texts.
pub proof fn lemma_hyphenated_injective(x: Seq<u8>, y: Seq<u8>)
    requires
        x.len() == 16,
        y.len() == 16,
        hyphenated(x) == hyphenated(y),
    ensures
        x == y,
{
    let h = hyphenated(x);
    assert(h.subrange(0, 8) =~= text::hex(x.subrange(0, 4)));
    assert(h.subrange(9, 13) =~= text::hex(x.subrange(4, 6)));
    assert(h.subrange(14, 18) =~= text::hex(x.subrange(6, 8)));
    assert(h.subrange(19, 23) =~= text::hex(x.subrange(8, 10)));
    assert(h.subrange(24, 36) =~= text::hex(x.subrange(10, 16)));
    let k = hyphenated(y);
    assert(k.subrange(0, 8) =~= text::hex(y.subrange(0, 4)));
    assert(k.subrange(9, 13) =~= text::hex(y.subrange(4, 6)));
    assert(k.subrange(14, 18) =~= text::hex(y.subrange(6, 8)));
    assert(k.subrange(19, 23) =~= text::hex(y.subrange(8, 10)));
    assert(k.subrange(24, 36) =~= text::hex(y.subrange(10, 16)));
    text::lemma_hex_injective(x.subrange(0, 4), y.subrange(0, 4));
    text::lemma_hex_injective(x.subrange(4, 6), y.subrange(4, 6));
    text::lemma_hex_injective(x.subrange(6, 8), y.subrange(6, 8));
    text::lemma_hex_injective(x.subrange(8, 10), y.subrange(8, 10));
    text::lemma_hex_injective(x.subrange(10, 16), y.subrange(10, 16));
    assert(x =~= x.subrange(0, 4) + x.subrange(4, 6) + x.subrange(6, 8) + x.subrange(8, 10)
        + x.subrange(10, 16));
    assert(y =~= y.subrange(0, 4) + y.subrange(4, 6) + y.subrange(6, 8) + y.subrange(8, 10)
        + y.subrange(10, 16));
}

/// A canonical text denotes just the UUID that it is the text of.
pub proof fn lemma_canonical_text_denotes(x: Seq<u8>, y: Seq<u8>)
    requires
        x.len() == 16,
        y.len() == 16,
    ensures
        is_uuid_text(hyphenated(x), x),
        is_uuid_text(hyphenated(x), y) ==> x == y,
{
    lemma_hyphenated_shape(x);
    lemma_hyphenated_shape(y);
    reveal_strlit("urn:uuid:");
    if is_uuid_text(hyphenated(x), y) {
        assert(text::hex(y).len() == 32);
        assert((seq!['{'] + hyphenated(y) + seq!['}']).len() == 38);
        assert(("urn:uuid:"@ + hyphenated(y)).len() == 45);
        lemma_hyphenated_injective(x, y);
    }
}

/// The hyphenated text of a UUID is the lower-case hexadecimal notation of its bytes in
/// order, in groups of four, two, two, two and six bytes with hyphens between them.
pub proof fn hyphenated_text_has_five_groups(bytes: Seq<u8>)
    requires
        bytes.len() == 16,
    ensures
        ({
            let h = hyphenated(bytes);
            &&& h.len() == 36
            &&& h[8] == '-' && h[13] == '-' && h[18] == '-' && h[23] == '-'
            &&& h.subrange(0, 8) + h.subrange(9, 13) + h.subrange(14, 18) + h.subrange(19, 23)
                + h.subrange(24, 36) == text::hex(bytes)
        }),
{
    let h = hyphenated(bytes);
    lemma_hyphenated_shape(bytes);
    text::lemma_hex_digits(bytes);
    let flat = h.subrange(0, 8) + h.subrange(9, 13) + h.subrange(14, 18) + h.subrange(19, 23)
        + h.subrange(24, 36);
    assert(h.subrange(0, 8) =~= text::hex(bytes.subrange(0, 4)));
    assert(h.subrange(9, 13) =~= text::hex(bytes.subrange(4, 6)));
    assert(h.subrange(14, 18) =~= text::hex(bytes.subrange(6, 8)));
    assert(h.subrange(19, 23) =~= text::hex(bytes.subrange(8, 10)));
    assert(h.subrange(24, 36) =~= text::hex(bytes.subrange(10, 16)));
    text::lemma_hex_concat(bytes.subrange(0, 4), bytes.subrange(4, 6));
    text::lemma_hex_concat(bytes.subrange(0, 6), bytes.subrange(6, 8));
    text::lemma_hex_concat(bytes.subrange(0, 8), bytes.subrange(8, 10));
    text::lemma_hex_concat(bytes.subrange(0, 10), bytes.subrange(10, 16));
    assert(bytes.subrange(0, 4) + bytes.subrange(4, 6) =~= bytes.subrange(0, 6));
    assert(bytes.subrange(0, 6) + bytes.subrange(6, 8) =~= bytes.subrange(0, 8));
    assert(bytes.subrange(0, 8) + bytes.subrange(8, 10) =~= bytes.subrange(0, 10));
    assert(bytes.subrange(0, 10) + bytes.subrange(10, 16) =~= bytes);
}

} // verus!
