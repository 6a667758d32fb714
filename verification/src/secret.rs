//! Secrets: texts that are wiped when they are dropped.
use vstd::prelude::*;

use crate::codec::wipe_text;

verus! {

/// A secret text. It has no `Debug`, and is wiped from memory when it is dropped.
#[derive(PartialEq, Eq)]
pub struct Secret {
    text: String,
}

impl Secret {
    pub closed spec fn view(&self) -> Seq<char> {
        self.text@
    }

    /// Takes a text over as a secret.
    pub fn new(value: String) -> (secret: Secret)
        ensures
            secret@ == value@,
    {
        Secret { text: value }
    }

    /// The secret itself.
    pub fn expose(&self) -> (text: &str)
        ensures
            text@ == self@,
    {
        self.text.as_str()
    }

    /// What may be shown of a secret: the same for each.
    pub fn redacted(&self) -> (text: String)
        ensures
            text@ == "[redacted]"@,
    {
        "[redacted]".to_owned()
    }

    /// A copy.
    pub fn copy(&self) -> (copy: Secret)
        ensures
            copy@ == self@,
    {
        Secret { text: self.text.clone() }
    }
}

impl Drop for Secret {
    fn drop(&mut self)
        ensures
            final(self)@ == Seq::<char>::empty(),
        opens_invariants none
        no_unwind
    {
        wipe_text(&mut self.text);
    }
}

impl Clone for Secret {
    fn clone(&self) -> (copy: Secret)
        ensures
            copy@ == self@,
    {
        self.copy()
    }
}

}
