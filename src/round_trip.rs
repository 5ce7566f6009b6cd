//! Decoding undoes encoding.
use vstd::prelude::*;

use crate::alphabet::{char_of, is_signal, lemma_code_of_token, lemma_token_round_trip, token_of};
use crate::decode::{
    decoded, decoded_word, decoding, normal_symbol, symbol_or_hash, unknown_tokens, unrecognized,
    word_tokens,
};
use crate::encode::{encoded, encoding, piece, unsupported_chars};
use crate::Translation;
use crate::text::{
    concat_all, is_white_space, join, lemma_join_append, lemma_join_chars, lemma_join_ends,
    lemma_split_around, lemma_split_join, lemma_split_len, lemma_split_none, lemma_trim_none,
    lemma_trim_prepend, lemma_trim_push, split, trim,
};

verus! {

/// Text that decodes back from its signal: every character has a token, and each space stands
/// between two words, never at either end nor beside another space.
pub open spec fn is_plain_text(s: Seq<char>) -> bool {
    &&& forall|i: int| 0 <= i < s.len() ==> token_of(#[trigger] s[i]) is Some
    &&& s.len() > 0 ==> s[0] != ' ' && s.last() != ' '
    &&& forall|i: int|
        #![trigger s[i]]
        0 <= i < s.len() - 1 && s[i] == ' ' ==> s[i + 1] != ' '
}

/// A word of plain text: characters with tokens, at least one, and no space.
pub open spec fn is_plain_word(w: Seq<char>) -> bool {
    &&& w.len() > 0
    &&& forall|i: int| 0 <= i < w.len() ==> token_of(#[trigger] w[i]) is Some && w[i] != ' '
}

/// The index of the last `c` in `s`, or -1 where there is none.
pub open spec fn last_index(s: Seq<char>, c: char) -> int
    decreases s.len(),
{
    if s.len() == 0 {
        -1
    } else if s.last() == c {
        s.len() - 1
    } else {
        last_index(s.drop_last(), c)
    }
}

proof fn lemma_last_index(s: Seq<char>, c: char)
    ensures
        -1 <= last_index(s, c) < s.len(),
        last_index(s, c) == -1 ==> !s.contains(c),
        last_index(s, c) >= 0 ==> s[last_index(s, c)] == c,
        forall|j: int| last_index(s, c) < j < s.len() ==> s[j] != c,
    decreases s.len(),
{
    if s.len() > 0 {
        lemma_last_index(s.drop_last(), c);
        if last_index(s, c) == -1 {
            assert forall|j: int| 0 <= j < s.len() implies s[j] != c by {
                if j < s.len() - 1 {
                    assert(s.drop_last()[j] == s[j]);
                    assert(!s.drop_last().contains(c));
                }
            }
        }
        assert forall|j: int| last_index(s, c) < j < s.len() implies s[j] != c by {
            if j < s.len() - 1 {
                assert(s.drop_last()[j] == s[j]);
            }
        }
    }
}

/// The characters with tokens are, but for the space, no white space.
proof fn lemma_supported_not_white(c: char)
    requires
        token_of(c) is Some,
        c != ' ',
    ensures
        !is_white_space(c),
{
}

proof fn lemma_piece(c: char)
    requires
        token_of(c) is Some,
    ensures
        piece(c) == token_of(c)->0,
        piece(c).len() > 0,
        c != ' ' ==> is_signal(piece(c)),
        c == ' ' ==> piece(c) == seq!['/'],
{
    reveal_strlit("/");
    if c != ' ' {
        lemma_code_of_token(c);
    } else {
        assert(piece(c) =~= seq!['/']);
    }
}

proof fn lemma_all_supported(s: Seq<char>)
    requires
        forall|i: int| 0 <= i < s.len() ==> token_of(#[trigger] s[i]) is Some,
    ensures
        unsupported_chars(s) == Seq::<Seq<char>>::empty(),
    decreases s.len(),
{
    if s.len() > 0 {
        assert(token_of(s[s.len() - 1]) is Some);
        lemma_all_supported(s.drop_last());
    }
}

proof fn lemma_all_known(ts: Seq<Seq<char>>)
    requires
        forall|i: int| 0 <= i < ts.len() ==> char_of(#[trigger] ts[i]) is Some,
    ensures
        unknown_tokens(ts) == Seq::<Seq<char>>::empty(),
    decreases ts.len(),
{
    if ts.len() > 0 {
        assert(char_of(ts[ts.len() - 1]) is Some);
        lemma_all_known(ts.drop_last());
    }
}

/// The signal of `s` holds only dots, dashes, slashes and spaces, and where `s` is not empty, it
/// is not either and has no white space at either end.
proof fn lemma_encoded_shape(s: Seq<char>)
    requires
        is_plain_text(s),
    ensures
        forall|k: int|
            0 <= k < encoded(s).len() ==> {
                let c = #[trigger] encoded(s)[k];
                c == '.' || c == '_' || c == '/' || c == ' '
            },
        s.len() > 0 ==> encoded(s).len() > 0 && !is_white_space(encoded(s)[0])
            && !is_white_space(encoded(s).last()),
        s.len() > 0 && !s.contains(' ') ==> forall|k: int|
            0 <= k < encoded(s).len() ==> #[trigger] encoded(s)[k] != '/',
{
    let parts = s.map_values(|c: char| piece(c));
    assert forall|i: int| 0 <= i < parts.len() implies (#[trigger] parts[i]).len() > 0 && (s[i]
        != ' ' ==> is_signal(parts[i])) && (s[i] == ' ' ==> parts[i] == seq!['/']) by {
        lemma_piece(s[i]);
    }
    let ok = |c: char| c == '.' || c == '_' || c == '/' || c == ' ';
    lemma_join_chars(parts, ' ', ok);
    if s.len() > 0 {
        lemma_join_ends(parts, ' ');
        assert(parts[0].len() > 0);
        assert(parts.last() == parts[parts.len() - 1]);
    }
    if s.len() > 0 && !s.contains(' ') {
        let sig = |c: char| c == '.' || c == '_' || c == ' ';
        assert forall|i: int, k: int| 0 <= i < parts.len() && 0 <= k < parts[i].len() implies sig(
            #[trigger] parts[i][k],
        ) by {
            assert(s[i] != ' ');
        }
        lemma_join_chars(parts, ' ', sig);
    }
}

/// A plain word decodes back from its signal, and every token in it is known.
proof fn lemma_word_round_trip(w: Seq<char>)
    requires
        is_plain_word(w),
    ensures
        decoded_word(encoded(w)) == w,
        unknown_tokens(word_tokens(encoded(w))) == Seq::<Seq<char>>::empty(),
        forall|k: int| 0 <= k < encoded(w).len() ==> #[trigger] encoded(w)[k] != '/',
{
    let parts = w.map_values(|c: char| piece(c));
    assert(is_plain_text(w));
    assert(!w.contains(' '));
    lemma_encoded_shape(w);
    lemma_trim_none(encoded(w));
    assert forall|i: int| 0 <= i < parts.len() implies !(#[trigger] parts[i]).contains(' ') by {
        lemma_piece(w[i]);
        if parts[i].contains(' ') {
            let k = choose|k: int| 0 <= k < parts[i].len() && parts[i][k] == ' ';
            assert(is_signal(parts[i]));
        }
    }
    lemma_split_join(parts, ' ');
    assert(word_tokens(encoded(w)) == parts);
    assert forall|i: int| 0 <= i < parts.len() implies char_of(#[trigger] parts[i]) == Some(
        w[i],
    ) by {
        lemma_token_round_trip(w[i]);
    }
    lemma_all_known(parts);
    assert(parts.map_values(|t: Seq<char>| symbol_or_hash(t)) =~= w);
}

/// Plain text that is not empty decodes back from its signal, and every token in it is known.
proof fn lemma_words_round_trip(s: Seq<char>)
    requires
        is_plain_text(s),
        s.len() > 0,
    ensures
        decoded(encoded(s)) == s,
        unrecognized(encoded(s)) == Seq::<Seq<char>>::empty(),
    decreases s.len(),
{
    lemma_last_index(s, ' ');
    let k = last_index(s, ' ');
    if k == -1 {
        assert(is_plain_word(s));
        lemma_word_round_trip(s);
        assert(!encoded(s).contains('/'));
        lemma_split_none(encoded(s), '/');
        assert(split(encoded(s), '/').map_values(|w: Seq<char>| decoded_word(w)) =~= seq![s]);
        let unknown = split(encoded(s), '/').map_values(
            |w: Seq<char>| unknown_tokens(word_tokens(w)),
        );
        assert(unknown =~= seq![Seq::<Seq<char>>::empty()]);
        assert(unknown.drop_last() =~= Seq::<Seq<Seq<char>>>::empty());
        assert(concat_all(unknown.drop_last()) == Seq::<Seq<char>>::empty());
        assert(concat_all(unknown) =~= Seq::<Seq<char>>::empty());
    } else {
        let u = s.take(k);
        let w = s.skip(k + 1);
        assert(s =~= u.push(' ') + w);
        assert(k > 0);
        assert(s[k - 1] != ' ');
        assert(is_plain_text(u));
        assert(is_plain_word(w));
        lemma_words_round_trip(u);
        lemma_word_round_trip(w);
        lemma_piece(' ');
        let up = u.map_values(|c: char| piece(c));
        let wp = w.map_values(|c: char| piece(c));
        assert(s.map_values(|c: char| piece(c)) =~= up + (seq![seq!['/']] + wp));
        lemma_join_append(up, seq![seq!['/']] + wp, ' ');
        lemma_join_append(seq![seq!['/']], wp, ' ');
        let left = encoded(u).push(' ');
        let right = seq![' '] + encoded(w);
        assert(encoded(s) =~= left.push('/') + right);
        lemma_split_around(left, right, '/');
        assert(!right.contains('/')) by {
            if right.contains('/') {
                let j = choose|j: int| 0 <= j < right.len() && right[j] == '/';
                assert(encoded(w)[j - 1] == '/');
            }
        }
        lemma_split_none(right, '/');
        let p = split(encoded(u), '/');
        lemma_split_len(encoded(u), '/');
        assert(left.drop_last() =~= encoded(u));
        let pieces = split(encoded(s), '/');
        assert(pieces =~= p.update(p.len() - 1, p.last().push(' ')).push(right));
        lemma_trim_push(p.last(), ' ');
        lemma_trim_prepend(encoded(w), ' ');
        let dw = pieces.map_values(|x: Seq<char>| decoded_word(x));
        assert(dw =~= p.map_values(|x: Seq<char>| decoded_word(x)).push(w));
        assert(dw.drop_last() =~= p.map_values(|x: Seq<char>| decoded_word(x)));
        let uk = pieces.map_values(|x: Seq<char>| unknown_tokens(word_tokens(x)));
        assert(uk =~= p.map_values(|x: Seq<char>| unknown_tokens(word_tokens(x))).push(
            Seq::empty(),
        ));
        assert(uk.drop_last() =~= p.map_values(|x: Seq<char>| unknown_tokens(word_tokens(x))));
        assert(concat_all(uk) =~= Seq::<Seq<char>>::empty());
    }
}

/// Plain text encodes without error, and its signal decodes back to it.
pub proof fn lemma_decode_encode(s: Seq<char>)
    requires
        is_plain_text(s),
    ensures
        encoding(trim(s)) == Translation::Ok(encoded(s)),
        decoding(encoded(s)) == Translation::Ok(s),
{
    if s.len() > 0 {
        lemma_supported_not_white(s[0]);
        lemma_supported_not_white(s.last());
    }
    lemma_trim_none(s);
    lemma_all_supported(s);
    lemma_encoded_shape(s);
    let e = encoded(s);
    assert(e.map_values(|c: char| normal_symbol(c)) =~= e);
    lemma_trim_none(e);
    if s.len() > 0 {
        lemma_words_round_trip(s);
    } else {
        assert(e =~= Seq::<char>::empty());
        assert(s =~= Seq::<char>::empty());
    }
}

} // verus!
