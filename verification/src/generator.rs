//! The identifier generator: a validated shape (length and alphabet) and a
//! random draw of that shape.

use vstd::prelude::*;
use crate::alphabet::{
    is_ascii_char, is_url_safe_char, lemma_url_safe_alphabet_exact,
    lemma_url_safe_alphabet_valid, url_safe_alphabet, valid_alphabet, MAX_ALPHABET_LEN,
};

verus! {

/// The identifier length used when none is configured.
pub const DEFAULT_ID_LENGTH: usize = 6;

/// A length that identifiers can have: at least one symbol, and few enough that
/// eight times the length still fits a machine word (random bytes are requested
/// in blocks of `8 * length / 5`).
pub open spec fn valid_length(length: nat) -> bool {
    1 <= length <= usize::MAX / 8
}

/// The shape of a family of short identifiers: how many symbols each has, and
/// which symbols they are taken from.
pub struct IdShape {
    pub length: nat,
    pub alphabet: Seq<char>,
}

impl IdShape {
    /// A shape that a generator can have.
    pub open spec fn valid(self) -> bool {
        valid_length(self.length) && valid_alphabet(self.alphabet)
    }

    /// `id` is an identifier of this shape: `length` symbols, each of them
    /// from `alphabet`.
    pub open spec fn admits(self, id: Seq<char>) -> bool {
        &&& id.len() == self.length
        &&& forall|i: int| 0 <= i < id.len() ==> self.alphabet.contains(#[trigger] id[i])
    }
}

/// The shape of the default identifiers: `DEFAULT_ID_LENGTH` symbols of the
/// URL-safe alphabet.
pub open spec fn default_shape() -> IdShape {
    IdShape { length: DEFAULT_ID_LENGTH as nat, alphabet: url_safe_alphabet() }
}

/// An identifier over the URL-safe alphabet consists of URL-safe characters:
/// it can stand in a URL path as it is.
pub proof fn lemma_url_safe_ids(shape: IdShape, id: Seq<char>)
    requires
        shape.alphabet == url_safe_alphabet(),
        shape.admits(id),
    ensures
        forall|i: int| 0 <= i < id.len() ==> is_url_safe_char(#[trigger] id[i]),
{
    lemma_url_safe_alphabet_exact();
}

/// Draws `size` symbols from `alphabet` with `nanoid::format`, fed by
/// `nanoid::rngs::default`.
///
/// Trusted: `format` appends `alphabet[b & mask]` for each random byte `b` whose
/// masked value indexes into the alphabet, and returns as soon as the string is
/// `size` bytes long. With ASCII symbols every append adds one byte, so the
/// result has exactly `size` characters, all from `alphabet`. Which ones is left
/// open: they are random. The preconditions exclude the inputs on which `format`
/// panics (more than 255 symbols) or cannot finish (no symbols, size 0, a
/// multi-byte symbol stepping over `size`, `8 * size` overflowing). It still
/// panics if the operating system has no random bytes to give.
#[verifier::external_body]
fn random_id(alphabet: &Vec<char>, size: usize) -> (id: String)
    requires
        valid_alphabet(alphabet@),
        valid_length(size as nat),
    ensures
        (IdShape { length: size as nat, alphabet: alphabet@ }).admits(id@),
{
    nanoid::format(nanoid::rngs::default, alphabet.as_slice(), size)
}

/// Copies `nanoid::alphabet::SAFE` into a vector.
///
/// Trusted: the constant holds the 64 symbols of `url_safe_alphabet`, in that
/// order.
#[verifier::external_body]
fn nanoid_safe_alphabet() -> (alphabet: Vec<char>)
    ensures
        alphabet@ == url_safe_alphabet(),
{
    nanoid::alphabet::SAFE.to_vec()
}

/// A source of fresh candidate identifiers of one fixed shape.
///
/// The generator keeps no state between draws: it is a length and an alphabet.
pub struct IdGenerator {
    length: usize,
    alphabet: Vec<char>,
}

impl View for IdGenerator {
    type V = IdShape;

    closed spec fn view(&self) -> IdShape {
        IdShape { length: self.length as nat, alphabet: self.alphabet@ }
    }
}

impl IdGenerator {
    #[verifier::type_invariant]
    spec fn well_formed(self) -> bool {
        self@.valid()
    }

    /// A generator of identifiers of `length` symbols over `alphabet`, or `None`
    /// when that is no valid shape.
    pub fn new(length: usize, alphabet: Vec<char>) -> (generator: Option<IdGenerator>)
        ensures
            generator is Some <==> (IdShape { length: length as nat, alphabet: alphabet@ }).valid(),
            generator matches Some(g) ==> g@ == (IdShape {
                length: length as nat,
                alphabet: alphabet@,
            }),
    {
        if length < 1 || length > usize::MAX / 8 {
            return None;
        }
        if alphabet.len() < 1 || alphabet.len() > MAX_ALPHABET_LEN {
            return None;
        }
        let mut i: usize = 0;
        while i < alphabet.len()
            invariant
                i <= alphabet.len(),
                forall|j: int| 0 <= j < i ==> is_ascii_char(#[trigger] alphabet@[j]),
            decreases alphabet.len() - i,
        {
            if alphabet[i] as u32 >= 128 {
                return None;
            }
            i += 1;
        }
        Some(IdGenerator { length, alphabet })
    }

    /// A generator of identifiers of `length` symbols over the URL-safe
    /// alphabet, or `None` when the length is not valid.
    pub fn url_safe(length: usize) -> (generator: Option<IdGenerator>)
        ensures
            generator is Some <==> valid_length(length as nat),
            generator matches Some(g) ==> g@ == (IdShape {
                length: length as nat,
                alphabet: url_safe_alphabet(),
            }),
    {
        proof {
            lemma_url_safe_alphabet_valid();
        }
        IdGenerator::new(length, nanoid_safe_alphabet())
    }

    /// The number of symbols in each identifier.
    pub fn length(&self) -> (length: usize)
        ensures
            length == self@.length,
    {
        self.length
    }

    /// The symbols identifiers are drawn from.
    pub fn alphabet(&self) -> (alphabet: &Vec<char>)
        ensures
            alphabet@ == self@.alphabet,
    {
        &self.alphabet
    }

    /// A generator of the same shape.
    pub fn duplicate(&self) -> (copy: IdGenerator)
        ensures
            copy@ == self@,
    {
        proof {
            use_type_invariant(self);
        }
        IdGenerator { length: self.length, alphabet: self.alphabet.clone() }
    }

    /// Draws a fresh candidate identifier at random.
    ///
    /// The result always has this generator's shape. Nothing relates two draws:
    /// the same identifier may come up again.
    pub fn new_id(&self) -> (id: String)
        ensures
            self@.admits(id@),
    {
        proof {
            use_type_invariant(self);
        }
        random_id(&self.alphabet, self.length)
    }
}

impl Default for IdGenerator {
    /// A generator of the default shape.
    fn default() -> (generator: IdGenerator)
        ensures
            generator@ == default_shape(),
    {
        proof {
            lemma_url_safe_alphabet_valid();
        }
        IdGenerator { length: DEFAULT_ID_LENGTH, alphabet: nanoid_safe_alphabet() }
    }
}

} // verus!
