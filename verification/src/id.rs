//! Identifiers tagged with the kind of entity they name.

use crate::error::Error;
use crate::id_text::hyphenated;
use std::marker::PhantomData;
use vstd::prelude::*;

verus! {

/// The 128-bit value that `text` stands for as an identifier, or nothing
/// where `text` is no identifier.
pub uninterp spec fn uuid_of_text(text: Seq<char>) -> Option<u128>;

/// Reads `text` with `uuid::Uuid::parse_str` and takes the value of the
/// result with `uuid::Uuid::as_u128`.
///
/// Trusted: the answer is a function of the text alone.
#[verifier::external_body]
fn parse_uuid(text: &str) -> (value: Option<u128>)
    ensures
        value == uuid_of_text(text@),
{
    match uuid::Uuid::parse_str(text) {
        Ok(parsed) => Some(parsed.as_u128()),
        Err(_) => None,
    }
}

/// Makes the identifier with `uuid::Uuid::from_u128` and writes it as
/// `uuid::Uuid::to_hyphenated` does.
///
/// Trusted: the text holds the thirty-two digits of the value, most
/// significant first, in lower case and in five groups; and `parse_str`
/// reads every text written so back as the value it was written for.
#[verifier::external_body]
fn render_uuid(value: u128) -> (text: String)
    ensures
        text@ == hyphenated(value),
        uuid_of_text(text@) == Some(value),
{
    uuid::Uuid::from_u128(value).to_hyphenated().to_string()
}

/// Whether `value` has the form of an identifier drawn at random: of its
/// sixteen bytes, counted from the most significant, the upper half of the
/// seventh holds the version 4 and the top two bits of the ninth hold the
/// variant `10`. The other 122 bits are free.
pub open spec fn is_random_form(value: u128) -> bool {
    (value >> 76) & 0xf == 4 && (value >> 62) & 0x3 == 2
}

/// Whether every one of `ids` has the form of an identifier drawn at
/// random.
pub open spec fn all_random_form(ids: Seq<u128>) -> bool {
    forall|i: int| 0 <= i < ids.len() ==> is_random_form(#[trigger] ids[i])
}

/// Draws a value with `uuid::Uuid::new_v4`, which asks the operating system
/// for random bytes, and takes it with `uuid::Uuid::as_u128`.
///
/// Trusted: whatever bytes were drawn, `new_v4` sets the version to 4 and
/// the variant to `10` before it hands the identifier out. Nothing is
/// claimed of the other bits.
#[verifier::external_body]
fn random_uuid() -> (value: u128)
    ensures
        is_random_form(value),
{
    uuid::Uuid::new_v4().as_u128()
}

/// A 128-bit identifier of an entity of kind `K`.
#[derive(Debug, Hash)]
pub struct Id<K> {
    value: u128,
    kind: PhantomData<K>,
}

impl<K> View for Id<K> {
    type V = u128;

    closed spec fn view(&self) -> u128 {
        self.value
    }
}

impl<K> DeepView for Id<K> {
    type V = u128;

    open spec fn deep_view(&self) -> u128 {
        self@
    }
}

impl<K> Id<K> {
    /// The identifier with the raw value `value`.
    pub fn new(value: u128) -> (id: Self)
        ensures
            id@ == value,
    {
        Id { value, kind: PhantomData }
    }

    /// The raw 128-bit value.
    pub fn value(&self) -> (value: u128)
        ensures
            value == self@,
    {
        self.value
    }

    /// The identifier for what was read from a text: the value read, or the
    /// failure to read one.
    pub fn from_parsed(value: Option<u128>) -> (outcome: Result<Self, Error>)
        ensures
            match outcome {
                Ok(id) => value == Some(id@),
                Err(error) => value.is_none() && error == Error::InvalidIdFormat,
            },
    {
        match value {
            Some(value) => Ok(Id::new(value)),
            None => Err(Error::InvalidIdFormat),
        }
    }

    /// Reads an identifier from its textual form.
    pub fn parse(text: &str) -> (outcome: Result<Self, Error>)
        ensures
            match outcome {
                Ok(id) => uuid_of_text(text@) == Some(id@),
                Err(error) => uuid_of_text(text@).is_none() && error == Error::InvalidIdFormat,
            },
    {
        Self::from_parsed(parse_uuid(text))
    }

    /// The textual form of the identifier, which `parse` reads back as this
    /// identifier.
    pub fn to_text(&self) -> (text: String)
        ensures
            text@ == hyphenated(self@),
            uuid_of_text(text@) == Some(self@),
    {
        render_uuid(self.value)
    }

    /// A freshly drawn identifier: 122 bits drawn at random, in the form
    /// that marks an identifier as drawn so. That it is not in use is for the
    /// store to check when something is stored under it.
    pub fn random() -> (id: Self)
        ensures
            is_random_form(id@),
    {
        Id::new(random_uuid())
    }
}

impl<K> Clone for Id<K> {
    fn clone(&self) -> (copy: Self)
        ensures
            copy@ == self@,
    {
        Id { value: self.value, kind: PhantomData }
    }
}

impl<K> Copy for Id<K> {}

impl<K> PartialEq for Id<K> {
    fn eq(&self, other: &Self) -> (equal: bool) {
        self.value == other.value
    }
}

impl<K> Eq for Id<K> {}

impl<K> vstd::std_specs::cmp::PartialEqSpecImpl for Id<K> {
    open spec fn obeys_eq_spec() -> bool {
        true
    }

    open spec fn eq_spec(&self, other: &Self) -> bool {
        self@ == other@
    }
}

/// Two identifiers of one kind with the same value are the same identifier.
pub proof fn lemma_id_by_value<K>(a: Id<K>, b: Id<K>)
    requires
        a@ == b@,
    ensures
        a == b,
{
}

} // verus!
