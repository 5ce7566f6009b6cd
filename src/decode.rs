//! Signal to text.
use vstd::prelude::*;

use crate::alphabet::{char_of, lookup_token};
use crate::text::{
    chars_of, concat_all, join, push_char, split, split_chars, string_of, trim, trim_chars,
};
use crate::{outcome, result_view, Translation, TranslationError};

verus! {

/// `c` with the other spellings of the two symbols replaced: `*` by `.` and `-` by `_`.
pub open spec fn normal_symbol(c: char) -> char {
    if c == '*' {
        '.'
    } else if c == '-' {
        '_'
    } else {
        c
    }
}

/// What a token stands for: its character, or `#` where no character has it.
pub open spec fn symbol_or_hash(t: Seq<char>) -> char {
    match char_of(t) {
        Some(c) => c,
        None => '#',
    }
}

/// The tokens of a word: the word without leading and trailing white space, split at single
/// spaces.
pub open spec fn word_tokens(w: Seq<char>) -> Seq<Seq<char>> {
    split(trim(w), ' ')
}

/// The text for a word: one character for each of its tokens.
pub open spec fn decoded_word(w: Seq<char>) -> Seq<char> {
    word_tokens(w).map_values(|t: Seq<char>| symbol_or_hash(t))
}

/// The tokens among `ts` that no character has, in order, repeats included.
pub open spec fn unknown_tokens(ts: Seq<Seq<char>>) -> Seq<Seq<char>>
    decreases ts.len(),
{
    if ts.len() == 0 {
        Seq::empty()
    } else if char_of(ts.last()) is None {
        unknown_tokens(ts.drop_last()).push(ts.last())
    } else {
        unknown_tokens(ts.drop_last())
    }
}

/// The unknown tokens are listed in the order met, each occurrence on its own.
pub proof fn lemma_unknown_in_order(ts: Seq<Seq<char>>)
    ensures
        unknown_tokens(ts) == ts.filter(|t: Seq<char>| char_of(t) is None),
    decreases ts.len(),
{
    reveal(Seq::filter);
    if ts.len() > 0 {
        lemma_unknown_in_order(ts.drop_last());
    } else {
        assert(ts.filter(|t: Seq<char>| char_of(t) is None) =~= Seq::<Seq<char>>::empty());
        assert(unknown_tokens(ts) =~= Seq::<Seq<char>>::empty());
    }
}

/// The text for a signal: the words between the `/` marks, each decoded, separated by single
/// spaces.
pub open spec fn decoded(text: Seq<char>) -> Seq<char> {
    join(split(text, '/').map_values(|w: Seq<char>| decoded_word(w)), ' ')
}

/// The tokens of a signal that no character has, word by word, in order, repeats included.
pub open spec fn unrecognized(text: Seq<char>) -> Seq<Seq<char>> {
    concat_all(split(text, '/').map_values(|w: Seq<char>| unknown_tokens(word_tokens(w))))
}

/// The outcome of decoding `input`: the other spellings of the symbols are replaced and leading
/// and trailing white space is dropped; what is left empty decodes to empty text.
pub open spec fn decoding(input: Seq<char>) -> Translation {
    let text = trim(input.map_values(|c: char| normal_symbol(c)));
    if text.len() == 0 {
        Ok(Seq::empty())
    } else {
        outcome(unrecognized(text), decoded(text))
    }
}

fn normalize(s: &[char]) -> (r: Vec<char>)
    ensures
        r@ == s@.map_values(|c: char| normal_symbol(c)),
{
    let mut r: Vec<char> = Vec::new();
    let mut i: usize = 0;
    while i < s.len()
        invariant
            0 <= i <= s.len(),
            r@ == s@.take(i as int).map_values(|c: char| normal_symbol(c)),
        decreases s.len() - i,
    {
        let c = s[i];
        let n = if c == '*' {
            '.'
        } else if c == '-' {
            '_'
        } else {
            c
        };
        r.push(n);
        i = i + 1;
        assert(r@ =~= s@.take(i as int).map_values(|c: char| normal_symbol(c)));
    }
    assert(s@.take(i as int) =~= s@);
    r
}

/// Decodes a signal into text. `*` may stand for a dot and `-` for a dash. Leading and trailing
/// white space is dropped, the signal is split into words at each `/`, and each word, without
/// its own leading and trailing white space, into tokens at each single space. Each token gives
/// its character, or `#` where no character has it, and single spaces separate the words. A
/// signal that is empty, or white space alone, gives empty text. The call fails exactly where
/// some token has no character, and the error then lists those tokens and holds the output as
/// well.
///
/// ```
/// use morse::decode;
///
/// assert_eq!(decode::decode("... ___ ...").unwrap(), "sos");
/// ```
pub fn decode(input: &str) -> (r: Result<String, TranslationError>)
    ensures
        result_view(r) == decoding(input@),
{
    let all = chars_of(input);
    let normal = normalize(all.as_slice());
    let text = trim_chars(normal.as_slice());
    if text.len() == 0 {
        return Ok(String::new());
    }
    let words = split_chars(text.as_slice(), '/');
    let ghost pieces = split(text@, '/');
    let mut result = String::new();
    let mut errors: Vec<String> = Vec::new();
    let mut i: usize = 0;
    while i < words.len()
        invariant
            0 <= i <= words.len(),
            words@.map_values(|p: Vec<char>| p@) == pieces,
            result@ == join(
                pieces.take(i as int).map_values(|w: Seq<char>| decoded_word(w)),
                ' ',
            ),
            errors@.map_values(|s: String| s@) == concat_all(
                pieces.take(i as int).map_values(|w: Seq<char>| unknown_tokens(word_tokens(w))),
            ),
        decreases words.len() - i,
    {
        let ghost w = pieces[i as int];
        assert(words@[i as int]@ == w);
        let ghost result_before = result@;
        let ghost errors_before = errors@.map_values(|s: String| s@);
        if i > 0 {
            push_char(&mut result, ' ');
        }
        let ghost base = result@;
        let word = trim_chars(words[i].as_slice());
        let tokens = split_chars(word.as_slice(), ' ');
        let ghost ts = word_tokens(w);
        let mut j: usize = 0;
        while j < tokens.len()
            invariant
                0 <= j <= tokens.len(),
                tokens@.map_values(|p: Vec<char>| p@) == ts,
                result@ == base + ts.take(j as int).map_values(
                    |t: Seq<char>| symbol_or_hash(t),
                ),
                errors@.map_values(|s: String| s@) == errors_before + unknown_tokens(
                    ts.take(j as int),
                ),
            decreases tokens.len() - j,
        {
            let ghost t = ts[j as int];
            assert(tokens@[j as int]@ == t);
            assert(ts.take(j + 1).drop_last() =~= ts.take(j as int));
            match lookup_token(tokens[j].as_slice()) {
                Some(c) => {
                    push_char(&mut result, c);
                },
                None => {
                    push_char(&mut result, '#');
                    let ghost listed = errors@.map_values(|s: String| s@);
                    errors.push(string_of(tokens[j].as_slice()));
                    assert(errors@.map_values(|s: String| s@) =~= listed.push(t));
                    assert(errors@.map_values(|s: String| s@) =~= errors_before + unknown_tokens(
                        ts.take(j as int),
                    ).push(t));
                },
            }
            assert(result@ =~= base + ts.take(j + 1).map_values(|t: Seq<char>| symbol_or_hash(t)));
            j = j + 1;
        }
        assert(ts.take(j as int) =~= ts);
        let ghost done = pieces.take(i as int);
        let ghost next = pieces.take(i + 1);
        assert(next.drop_last() =~= done);
        assert(next.map_values(|w: Seq<char>| decoded_word(w)).drop_last() =~= done.map_values(
            |w: Seq<char>| decoded_word(w),
        ));
        assert(next.map_values(|w: Seq<char>| unknown_tokens(word_tokens(w))).drop_last()
            =~= done.map_values(|w: Seq<char>| unknown_tokens(word_tokens(w))));
        i = i + 1;
    }
    assert(pieces.take(i as int) =~= pieces);
    if errors.len() == 0 {
        Ok(result)
    } else {
        Err(TranslationError { unsupported_characters: errors, result })
    }
}

} // verus!
