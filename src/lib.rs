//! Encoding text as dot-and-dash signals and decoding it back.
//!
//! [`encode::encode`] turns text into tokens of dots (`.`) and dashes (`_`), one token for each
//! character, separated by single spaces, with `/` standing for a space between words.
//! [`decode::decode`] reads such a signal back into text. Both translate every unit they can,
//! put `#` in place of those they cannot, and report those in a [`TranslationError`].
use vstd::prelude::*;

pub mod alphabet;
pub mod decode;
pub mod encode;
pub mod round_trip;
pub mod text;

verus! {

/// What `encode` or `decode` returns where some units of the input could not be translated.
#[derive(Debug)]
pub struct TranslationError {
    /// Every unit that could not be translated, in the order met, repeats included.
    pub unsupported_characters: Vec<String>,
    /// The translation, with `#` in place of each unit that could not be translated.
    pub result: String,
}

impl View for TranslationError {
    type V = (Seq<Seq<char>>, Seq<char>);

    open spec fn view(&self) -> (Seq<Seq<char>>, Seq<char>) {
        (self.unsupported_characters@.map_values(|s: String| s@), self.result@)
    }
}

/// A translation as values: the output, or the units that could not be translated together with
/// the output.
pub type Translation = Result<Seq<char>, (Seq<Seq<char>>, Seq<char>)>;

/// The outcome of a translation: the output, or, where some units could not be translated,
/// those units together with the output.
pub open spec fn outcome(unsupported: Seq<Seq<char>>, output: Seq<char>) -> Translation {
    if unsupported.len() == 0 {
        Ok(output)
    } else {
        Err((unsupported, output))
    }
}

/// A translation's result as values.
pub open spec fn result_view(r: Result<String, TranslationError>) -> Translation {
    match r {
        Ok(s) => Ok(s@),
        Err(e) => Err(e@),
    }
}

} // verus!
