//! Text that is kept out of logs.

use secrecy::ExposeSecret;
use vstd::prelude::*;

verus! {

/// A secret text, held in a `secrecy::SecretString`, which redacts it in
/// debug output and wipes it from memory when it is dropped.
///
/// Verus sees nothing inside; the text is spoken of by [`secret_text`].
#[verifier::external_body]
#[derive(Debug)]
pub struct SecretText {
    inner: secrecy::SecretString,
}

/// The text that a [`SecretText`] holds.
pub uninterp spec fn secret_text(secret: SecretText) -> Seq<char>;

impl View for SecretText {
    type V = Seq<char>;

    open spec fn view(&self) -> Seq<char> {
        secret_text(*self)
    }
}

/// Calls `secrecy::SecretString::from` on a `String`: the box it makes holds
/// that very text.
#[verifier::external_body]
fn seal(text: String) -> (secret: SecretText)
    ensures
        secret_text(secret) == text@,
{
    SecretText { inner: secrecy::SecretString::from(text) }
}

/// Calls `secrecy::ExposeSecret::expose_secret`: it lends the text that the
/// box holds.
#[verifier::external_body]
fn unseal(secret: &SecretText) -> (text: &str)
    ensures
        text@ == secret_text(*secret),
{
    secret.inner.expose_secret()
}

impl SecretText {
    /// Seals `text`.
    pub fn new(text: String) -> (secret: SecretText)
        ensures
            secret@ == text@,
    {
        seal(text)
    }

    /// The sealed text.
    pub fn expose_secret(&self) -> (text: &str)
        ensures
            text@ == self@,
    {
        unseal(self)
    }
}

/// What was sealed is what is exposed.
pub proof fn law_sealed_text_is_exposed(text: String, secret: &SecretText, exposed: &str)
    requires
        call_ensures(SecretText::new, (text,), *secret),
        call_ensures(SecretText::expose_secret, (secret,), exposed),
    ensures
        exposed@ == text@,
{
}

} // verus!
