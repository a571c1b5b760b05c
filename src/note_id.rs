//! Note identifiers: 256 random bits, written as URL-safe base64 without
//! padding.
use base64::Engine;
use rand::Rng;
use vstd::prelude::*;

verus! {

/// Number of random bytes in an identifier.
pub const NOTE_ID_LEN: usize = 32;

/// The text that URL-safe, unpadded base64 gives for some bytes.
pub uninterp spec fn base64_url_encoded(b: Seq<u8>) -> Seq<char>;

/// The bytes that URL-safe, unpadded base64 reads from some text, if the text
/// is well formed.
pub uninterp spec fn base64_url_decoded(s: Seq<char>) -> Option<Seq<u8>>;

#[verifier::external_type_specification]
#[verifier::external_body]
pub struct ExDecodeError(base64::DecodeError);

/// Relies on base64's `BASE64_URL_SAFE_NO_PAD.encode`: the text depends on
/// the bytes alone.
#[verifier::external_body]
fn encode_url_safe(b: &[u8]) -> (r: String)
    ensures
        r@ == base64_url_encoded(b@),
{
    base64::prelude::BASE64_URL_SAFE_NO_PAD.encode(b)
}

/// Relies on base64's `BASE64_URL_SAFE_NO_PAD.decode`: it fails exactly on
/// text that is not well formed, and otherwise gives the decoded bytes.
#[verifier::external_body]
fn decode_url_safe(s: &str) -> (r: Result<Vec<u8>, base64::DecodeError>)
    ensures
        match r {
            Ok(v) => base64_url_decoded(s@) == Some(v@),
            Err(_) => base64_url_decoded(s@) is None,
        },
{
    base64::prelude::BASE64_URL_SAFE_NO_PAD.decode(s)
}

/// Relies on the `Display` impl of base64's `DecodeError`: a message that
/// says why the text was refused. Nothing is stated of it.
#[verifier::external_body]
fn decode_error_message(e: &base64::DecodeError) -> (r: String) {
    e.to_string()
}

/// Relies on `rand::rng()` (a cryptographically secure generator, seeded
/// from the operating system) and `Rng::random` for 32 bytes. Nothing is
/// known of the value.
#[verifier::external_body]
fn random_id_bytes() -> (r: [u8; 32]) {
    rand::rng().random()
}

/// Why a text is not an identifier.
#[derive(Debug, PartialEq, Eq)]
pub enum ParseNoteIdError {
    /// The text is not URL-safe base64 without padding; the decoder's own
    /// message says why.
    InvalidEncoding(String),
    /// The text decodes to a number of bytes other than 32.
    BadSize,
}

impl ParseNoteIdError {
    pub fn message(&self) -> (r: &str)
        ensures
            match self {
                ParseNoteIdError::InvalidEncoding(m) => r@ == m@,
                ParseNoteIdError::BadSize => r@ == "bad size"@,
            },
    {
        match self {
            ParseNoteIdError::InvalidEncoding(m) => m.as_str(),
            ParseNoteIdError::BadSize => "bad size",
        }
    }
}

/// A unique, non guessable note identifier (256 bits).
#[derive(Clone, Copy, Debug, PartialEq, Eq, Hash)]
pub struct NoteId {
    pub id: [u8; 32],
}

impl NoteId {
    /// The identifier's bytes.
    pub open spec fn bytes(&self) -> Seq<u8> {
        self.id@
    }

    /// Draws a fresh identifier from a secure random source.
    pub fn generate() -> (r: NoteId)
        ensures
            r.bytes().len() == NOTE_ID_LEN,
    {
        NoteId { id: random_id_bytes() }
    }

    /// Builds an identifier from exactly 32 bytes.
    pub fn from_bytes(b: &[u8]) -> (r: NoteId)
        requires
            b@.len() == NOTE_ID_LEN,
        ensures
            r.bytes() == b@,
    {
        let mut id: [u8; 32] = [0u8; 32];
        let mut i: usize = 0;
        while i < NOTE_ID_LEN
            invariant
                b@.len() == NOTE_ID_LEN,
                i <= NOTE_ID_LEN,
                id@.len() == NOTE_ID_LEN,
                forall|j: int| 0 <= j < i ==> id@[j] == b@[j],
            decreases NOTE_ID_LEN - i,
        {
            id[i] = b[i];
            i = i + 1;
        }
        assert(id@ =~= b@);
        NoteId { id }
    }

    /// Reads an identifier from its text form.
    pub fn parse(s: &str) -> (r: Result<NoteId, ParseNoteIdError>)
        ensures
            match base64_url_decoded(s@) {
                None => r is Err && r->Err_0 is InvalidEncoding,
                Some(b) => if b.len() == NOTE_ID_LEN {
                    r is Ok && r->Ok_0.bytes() == b
                } else {
                    r == Err::<NoteId, ParseNoteIdError>(ParseNoteIdError::BadSize)
                },
            },
    {
        match decode_url_safe(s) {
            Err(e) => Err(ParseNoteIdError::InvalidEncoding(decode_error_message(&e))),
            Ok(v) => {
                if v.len() == NOTE_ID_LEN {
                    Ok(NoteId::from_bytes(v.as_slice()))
                } else {
                    Err(ParseNoteIdError::BadSize)
                }
            },
        }
    }

    /// The identifier's text form.
    pub fn to_string(&self) -> (r: String)
        ensures
            r@ == base64_url_encoded(self.bytes()),
    {
        encode_url_safe(self.id.as_slice())
    }

    /// Whether two identifiers hold the same bytes.
    pub fn same_as(&self, other: &NoteId) -> (r: bool)
        ensures
            r == (self.bytes() == other.bytes()),
    {
        let mut i: usize = 0;
        while i < NOTE_ID_LEN
            invariant
                i <= NOTE_ID_LEN,
                self.id@.len() == NOTE_ID_LEN,
                other.id@.len() == NOTE_ID_LEN,
                forall|j: int| 0 <= j < i ==> self.id@[j] == other.id@[j],
            decreases NOTE_ID_LEN - i,
        {
            if self.id[i] != other.id[i] {
                return false;
            }
            i = i + 1;
        }
        assert(self.id@ =~= other.id@);
        true
    }
}

impl std::str::FromStr for NoteId {
    type Err = ParseNoteIdError;

    fn from_str(s: &str) -> Result<NoteId, ParseNoteIdError> {
        NoteId::parse(s)
    }
}

} // verus!
