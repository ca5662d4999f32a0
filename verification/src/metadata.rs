//! Descriptive records: what an artwork is, and what a token shows.

use crate::assoc::Id;
use vstd::prelude::*;
use vstd::string::StringExecFns;

verus! {

/// An artwork that has been split into shares.
#[derive(Debug, Clone, PartialEq, Eq)]
pub struct Art {
    /// Name of the artwork.
    pub art_title: String,
    /// Name of the artist.
    pub artist_name: String,
    /// Who vouched for the artwork.
    pub authenticator: String,
    /// How many shares were issued.
    pub num_shares: u64,
}

/// The mathematical value of an [`Art`].
pub struct ArtView {
    pub art_title: Id,
    pub artist_name: Id,
    pub authenticator: Id,
    pub num_shares: u64,
}

impl View for Art {
    type V = ArtView;

    open spec fn view(&self) -> ArtView {
        ArtView {
            art_title: self.art_title@,
            artist_name: self.artist_name@,
            authenticator: self.authenticator@,
            num_shares: self.num_shares,
        }
    }
}

/// What a token shows to the outside: texts, links, counts and dates.
#[derive(Debug, Clone, PartialEq, Eq)]
pub struct TokenMetadata {
    pub title: Option<String>,
    pub description: Option<String>,
    pub media: Option<String>,
    pub media_hash: Option<Vec<u8>>,
    pub copies: Option<u64>,
    pub issued_at: Option<u64>,
    pub expires_at: Option<u64>,
    pub starts_at: Option<u64>,
    pub updated_at: Option<u64>,
    pub extra: Option<String>,
    pub reference: Option<String>,
    pub reference_hash: Option<Vec<u8>>,
}

/// The mathematical value of a [`TokenMetadata`].
pub struct TokenMetadataView {
    pub title: Option<Seq<char>>,
    pub description: Option<Seq<char>>,
    pub media: Option<Seq<char>>,
    pub media_hash: Option<Seq<u8>>,
    pub copies: Option<u64>,
    pub issued_at: Option<u64>,
    pub expires_at: Option<u64>,
    pub starts_at: Option<u64>,
    pub updated_at: Option<u64>,
    pub extra: Option<Seq<char>>,
    pub reference: Option<Seq<char>>,
    pub reference_hash: Option<Seq<u8>>,
}

/// The characters of an optional text.
pub open spec fn text_of(o: Option<String>) -> Option<Seq<char>> {
    match o {
        Some(s) => Some(s@),
        None => None,
    }
}

/// The bytes of an optional byte string.
pub open spec fn bytes_of(o: Option<Vec<u8>>) -> Option<Seq<u8>> {
    match o {
        Some(b) => Some(b@),
        None => None,
    }
}

impl View for TokenMetadata {
    type V = TokenMetadataView;

    open spec fn view(&self) -> TokenMetadataView {
        TokenMetadataView {
            title: text_of(self.title),
            description: text_of(self.description),
            media: text_of(self.media),
            media_hash: bytes_of(self.media_hash),
            copies: self.copies,
            issued_at: self.issued_at,
            expires_at: self.expires_at,
            starts_at: self.starts_at,
            updated_at: self.updated_at,
            extra: text_of(self.extra),
            reference: text_of(self.reference),
            reference_hash: bytes_of(self.reference_hash),
        }
    }
}

/// A copy of an optional text.
pub fn copy_text(o: &Option<String>) -> (r: Option<String>)
    ensures
        text_of(r) == text_of(*o),
{
    match o {
        Some(s) => Some(s.clone()),
        None => None,
    }
}

/// A copy of an optional byte string.
pub fn copy_bytes(o: &Option<Vec<u8>>) -> (r: Option<Vec<u8>>)
    ensures
        bytes_of(r) == bytes_of(*o),
{
    match o {
        Some(b) => {
            let c = b.clone();
            assert(c@ =~= b@);
            Some(c)
        },
        None => None,
    }
}

impl TokenMetadata {
    /// A copy of the record, field by field.
    pub fn duplicate(&self) -> (m: Self)
        ensures
            m@ == self@,
    {
        TokenMetadata {
            title: copy_text(&self.title),
            description: copy_text(&self.description),
            media: copy_text(&self.media),
            media_hash: copy_bytes(&self.media_hash),
            copies: self.copies,
            issued_at: self.issued_at,
            expires_at: self.expires_at,
            starts_at: self.starts_at,
            updated_at: self.updated_at,
            extra: copy_text(&self.extra),
            reference: copy_text(&self.reference),
            reference_hash: copy_bytes(&self.reference_hash),
        }
    }
}

/// The value of the record that every share of an artwork is given.
pub open spec fn sample_token_metadata_view() -> TokenMetadataView {
    TokenMetadataView {
        title: Some("Olympus Mons"@),
        description: Some("The tallest mountain in the charted solar system"@),
        media: None,
        media_hash: None,
        copies: Some(1u64),
        issued_at: None,
        expires_at: None,
        starts_at: None,
        updated_at: None,
        extra: None,
        reference: None,
        reference_hash: None,
    }
}

/// The record that every share of an artwork is given: a fixed title and
/// description, one copy, and nothing else.
pub fn sample_token_metadata() -> (m: TokenMetadata)
    ensures
        m@ == sample_token_metadata_view(),
{
    TokenMetadata {
        title: Some(String::from_str("Olympus Mons")),
        description: Some(String::from_str("The tallest mountain in the charted solar system")),
        media: None,
        media_hash: None,
        copies: Some(1u64),
        issued_at: None,
        expires_at: None,
        starts_at: None,
        updated_at: None,
        extra: None,
        reference: None,
        reference_hash: None,
    }
}

/// An example artwork of fifteen shares.
pub fn sample_art_metadata() -> (a: Art)
    ensures
        a@ == (ArtView {
            art_title: "Fractr_Test_Art"@,
            artist_name: "blidddwangdw"@,
            authenticator: "dwangdwblidd"@,
            num_shares: 15u64,
        }),
{
    Art {
        art_title: String::from_str("Fractr_Test_Art"),
        artist_name: String::from_str("blidddwangdw"),
        authenticator: String::from_str("dwangdwblidd"),
        num_shares: 15u64,
    }
}

} // verus!
