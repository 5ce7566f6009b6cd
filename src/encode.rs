//! Text to signal.
use vstd::prelude::*;

use crate::alphabet::{character_to_token, token_of};
use crate::text::{chars_of, join, push_char, trim, trim_chars};
use crate::{outcome, result_view, Translation, TranslationError};

verus! {

/// What stands for `c` in a signal: its token, or `#` where it has none.
pub open spec fn piece(c: char) -> Seq<char> {
    match token_of(c) {
        Some(t) => t,
        None => "#"@,
    }
}

/// The signal for `s`: the piece of each character, separated by single spaces.
pub open spec fn encoded(s: Seq<char>) -> Seq<char> {
    join(s.map_values(|c: char| piece(c)), ' ')
}

/// Each character of `s` that has no token, as a string of its own, in order, repeats included.
pub open spec fn unsupported_chars(s: Seq<char>) -> Seq<Seq<char>>
    decreases s.len(),
{
    if s.len() == 0 {
        Seq::empty()
    } else if token_of(s.last()) is None {
        unsupported_chars(s.drop_last()).push(seq![s.last()])
    } else {
        unsupported_chars(s.drop_last())
    }
}

/// The characters without a token are listed in the order met, each occurrence on its own.
pub proof fn lemma_unsupported_in_order(s: Seq<char>)
    ensures
        unsupported_chars(s) == s.filter(|c: char| token_of(c) is None).map_values(
            |c: char| seq![c],
        ),
    decreases s.len(),
{
    reveal(Seq::filter);
    if s.len() > 0 {
        lemma_unsupported_in_order(s.drop_last());
        let kept = s.drop_last().filter(|c: char| token_of(c) is None);
        assert(kept.push(s.last()).map_values(|c: char| seq![c]) =~= kept.map_values(
            |c: char| seq![c],
        ).push(seq![s.last()]));
    } else {
        assert(s.filter(|c: char| token_of(c) is None) =~= Seq::<char>::empty());
        assert(unsupported_chars(s) =~= Seq::<Seq<char>>::empty());
    }
}

/// The outcome of encoding `s`, taken as it stands.
pub open spec fn encoding(s: Seq<char>) -> Translation {
    outcome(unsupported_chars(s), encoded(s))
}

/// Encodes text that is already in lowercase. Leading and trailing white space is dropped; each
/// character gives its token, or `#` where it has none, and single spaces separate them. The
/// call fails exactly where some character has no token, and the error then lists those
/// characters and holds the output as well.
pub fn encode_folded(folded: &str) -> (r: Result<String, TranslationError>)
    ensures
        result_view(r) == encoding(trim(folded@)),
{
    let all = chars_of(folded);
    let text = trim_chars(all.as_slice());
    let mut result = String::new();
    let mut errors: Vec<String> = Vec::new();
    let mut i: usize = 0;
    while i < text.len()
        invariant
            0 <= i <= text.len(),
            result@ == encoded(text@.take(i as int)),
            errors@.map_values(|s: String| s@) == unsupported_chars(text@.take(i as int)),
        decreases text.len() - i,
    {
        let c = text[i];
        let ghost done = text@.take(i as int);
        let ghost next = text@.take(i + 1);
        assert(next.drop_last() =~= done);
        assert(next.map_values(|c: char| piece(c)).drop_last() =~= done.map_values(
            |c: char| piece(c),
        ));
        if i > 0 {
            push_char(&mut result, ' ');
        }
        match character_to_token(c) {
            Some(t) => {
                result.append(t);
            },
            None => {
                result.append("#");
                let mut unit = String::new();
                push_char(&mut unit, c);
                errors.push(unit);
                assert(errors@.map_values(|s: String| s@) =~= unsupported_chars(done).push(
                    seq![c],
                ));
            },
        }
        i = i + 1;
    }
    assert(text@.take(i as int) =~= text@);
    if errors.len() == 0 {
        Ok(result)
    } else {
        Err(TranslationError { unsupported_characters: errors, result })
    }
}

/// What `str::to_lowercase` makes of a string.
pub uninterp spec fn lower_of(s: Seq<char>) -> Seq<char>;

/// Text of ASCII characters with no uppercase letter among them.
pub open spec fn is_lowercase_ascii(s: Seq<char>) -> bool {
    forall|i: int| 0 <= i < s.len() ==> (s[i] as u32) < 0x80 && !(0x41 <= (s[i] as u32) <= 0x5a)
}

/// Relies on `str::to_lowercase`: the result depends on the characters alone, and ASCII text
/// without uppercase letters comes back unchanged.
#[verifier::external_body]
fn lowercase(s: &str) -> (r: String)
    ensures
        r@ == lower_of(s@),
        is_lowercase_ascii(s@) ==> r@ == s@,
{
    s.to_lowercase()
}

/// Encodes text as a signal. The text is set in lowercase, leading and trailing white space is
/// dropped, and the rest is encoded as [`encode_folded`] does.
///
/// ```
/// use morse::encode;
///
/// assert_eq!(encode::encode("sos").unwrap(), "... ___ ...");
/// ```
pub fn encode(input: &str) -> (r: Result<String, TranslationError>)
    ensures
        result_view(r) == encoding(trim(lower_of(input@))),
        is_lowercase_ascii(input@) ==> result_view(r) == encoding(trim(input@)),
{
    let folded = lowercase(input);
    encode_folded(folded.as_str())
}

} // verus!
