//! Identifier alphabets.

use vstd::prelude::*;

verus! {

/// The largest number of symbols an alphabet may hold: one random byte selects
/// a symbol.
pub const MAX_ALPHABET_LEN: usize = 255;

/// `c` is one of the 128 ASCII characters.
pub open spec fn is_ascii_char(c: char) -> bool {
    (c as u32) < 128
}

/// `c` is a letter, a digit, `-` or `_`: a character that needs no escaping in
/// a URL path segment.
pub open spec fn is_url_safe_char(c: char) -> bool {
    ||| c == '_'
    ||| c == '-'
    ||| '0' as u32 <= c as u32 <= '9' as u32
    ||| 'a' as u32 <= c as u32 <= 'z' as u32
    ||| 'A' as u32 <= c as u32 <= 'Z' as u32
}

/// The default alphabet: `_`, `-`, the ten digits, then the lower-case and the
/// upper-case letters, 64 symbols in all.
pub open spec fn url_safe_alphabet() -> Seq<char> {
    seq![
        '_', '-', '0', '1', '2', '3', '4', '5', '6', '7', '8', '9', 'a', 'b', 'c', 'd', 'e', 'f',
        'g', 'h', 'i', 'j', 'k', 'l', 'm', 'n', 'o', 'p', 'q', 'r', 's', 't', 'u', 'v', 'w', 'x',
        'y', 'z', 'A', 'B', 'C', 'D', 'E', 'F', 'G', 'H', 'I', 'J', 'K', 'L', 'M', 'N', 'O', 'P',
        'Q', 'R', 'S', 'T', 'U', 'V', 'W', 'X', 'Y', 'Z',
    ]
}

/// An alphabet that identifiers can be drawn from: between 1 and
/// `MAX_ALPHABET_LEN` symbols, all of them ASCII, so that an identifier has as
/// many bytes as symbols. A symbol may stand in it more than once.
pub open spec fn valid_alphabet(alphabet: Seq<char>) -> bool {
    &&& 1 <= alphabet.len() <= MAX_ALPHABET_LEN
    &&& forall|i: int| 0 <= i < alphabet.len() ==> is_ascii_char(#[trigger] alphabet[i])
}

/// Where a URL-safe character stands in the default alphabet.
spec fn place_in_url_safe_alphabet(c: char) -> int {
    if c == '_' {
        0
    } else if c == '-' {
        1
    } else if '0' as u32 <= c as u32 <= '9' as u32 {
        2 + (c as u32 - '0' as u32)
    } else if 'a' as u32 <= c as u32 <= 'z' as u32 {
        12 + (c as u32 - 'a' as u32)
    } else {
        38 + (c as u32 - 'A' as u32)
    }
}

/// A URL-safe character stands in the default alphabet.
proof fn lemma_url_safe_char_has_place(c: char)
    requires
        is_url_safe_char(c),
    ensures
        url_safe_alphabet().contains(c),
{
    let i = place_in_url_safe_alphabet(c);
    assert(0 <= i < 64);
    assert(url_safe_alphabet()[i] == c);
}

/// Every symbol of the default alphabet is URL-safe.
proof fn lemma_url_safe_alphabet_symbols()
    ensures
        forall|i: int|
            0 <= i < url_safe_alphabet().len() ==> is_url_safe_char(
                #[trigger] url_safe_alphabet()[i],
            ),
{
}

/// No symbol stands twice in the default alphabet.
proof fn lemma_url_safe_alphabet_distinct()
    ensures
        forall|i: int, j: int|
            0 <= i < j < 64 ==> url_safe_alphabet()[i] != url_safe_alphabet()[j],
{
}

/// The default alphabet is a valid alphabet of 64 symbols.
pub proof fn lemma_url_safe_alphabet_valid()
    ensures
        url_safe_alphabet().len() == 64,
        valid_alphabet(url_safe_alphabet()),
{
}

/// The default alphabet holds the URL-safe characters and no others, each of
/// them once.
pub proof fn lemma_url_safe_alphabet_exact()
    ensures
        forall|c: char| is_url_safe_char(c) <==> url_safe_alphabet().contains(c),
        url_safe_alphabet().no_duplicates(),
{
    assert forall|c: char| is_url_safe_char(c) implies url_safe_alphabet().contains(c) by {
        lemma_url_safe_char_has_place(c);
    }
    lemma_url_safe_alphabet_symbols();
    assert(url_safe_alphabet().no_duplicates()) by {
        lemma_url_safe_alphabet_distinct();
    }
}

} // verus!
