use morse::alphabet::{character_to_token, token_to_character};
use morse::decode::decode;
use morse::encode::{encode, encode_folded};

const SUPPORTED: &str = "abcdefghijklmnopqrstuvwxyz0123456789.,?'!/()&:;=+-_\"$@ ";

#[test]
fn every_token_decodes_to_its_character() {
    for c in SUPPORTED.chars() {
        let token = character_to_token(c).unwrap();
        assert_eq!(token_to_character(token), Some(c));
    }
}

#[test]
fn characters_outside_the_alphabet_have_no_token() {
    assert_eq!(character_to_token('~'), None);
    assert_eq!(character_to_token('A'), None);
    assert_eq!(character_to_token('é'), None);
    assert_eq!(character_to_token('#'), None);
}

#[test]
fn token_lookup() {
    assert_eq!(token_to_character("._"), Some('a'));
    assert_eq!(token_to_character("..._.._"), Some('$'));
    assert_eq!(token_to_character("/"), Some(' '));
    assert_eq!(token_to_character("_______"), None);
    assert_eq!(token_to_character("._._"), None);
    assert_eq!(token_to_character(""), None);
    assert_eq!(token_to_character("._x"), None);
    assert_eq!(token_to_character("........"), None);
}

#[test]
fn empty_input_encodes_and_decodes_to_nothing() {
    assert_eq!(encode("").unwrap(), "");
    assert_eq!(decode("").unwrap(), "");
}

#[test]
fn white_space_alone_decodes_to_nothing() {
    assert_eq!(decode("  \t ").unwrap(), "");
    assert_eq!(encode(" \n ").unwrap(), "");
}

#[test]
fn decode_undoes_encode() {
    let texts = [
        "sos",
        "abc def",
        "the quick brown fox jumps over the lazy dog",
        "0123456789",
        ".,?'!/()&:;=+-_\"$@",
        "a b c",
        "x",
    ];
    for text in texts {
        let signal = encode(text).unwrap();
        assert_eq!(decode(&signal).unwrap(), text);
    }
}

#[test]
fn decode_undoes_encode_after_case_folding() {
    let signal = encode("Hello World").unwrap();
    assert_eq!(decode(&signal).unwrap(), "hello world");
}

#[test]
fn unsupported_characters_are_listed_in_order_with_repeats() {
    let e = encode("a~a~").unwrap_err();
    assert_eq!(e.unsupported_characters, vec!["~".to_string(), "~".to_string()]);
    assert_eq!(e.result, "._ # ._ #");
}

#[test]
fn unknown_tokens_are_listed_in_order_with_repeats() {
    let e = decode("_______ ... ._._ / ._._ _______").unwrap_err();
    assert_eq!(
        e.unsupported_characters,
        vec!["_______".to_string(), "._._".to_string(), "._._".to_string(), "_______".to_string()]
    );
    assert_eq!(e.result, "#s# ##");
}

#[test]
fn encode_sos() {
    assert_eq!(encode("sos").unwrap(), "... ___ ...");
}

#[test]
fn decode_sos() {
    assert_eq!(decode("... ___ ...").unwrap(), "sos");
}

#[test]
fn encode_two_words() {
    assert_eq!(encode("abc def").unwrap(), "._ _... _._. / _.. . .._.");
}

#[test]
fn decode_two_words() {
    assert_eq!(decode("._ _... _._. / _.. . .._.").unwrap(), "abc def");
}

#[test]
fn decode_unknown_token_first() {
    let e = decode("_______ ... ___ ...").unwrap_err();
    assert_eq!(e.unsupported_characters, vec!["_______".to_string()]);
    assert_eq!(e.result, "#sos");
}

#[test]
fn encode_unsupported_first() {
    let e = encode("~Hello!").unwrap_err();
    assert_eq!(e.unsupported_characters, vec!["~".to_string()]);
    assert_eq!(e.result, "# .... . ._.. ._.. ___ _._.__");
}

#[test]
fn decode_alternative_spellings() {
    assert_eq!(decode("*- -***").unwrap(), "ab");
    assert_eq!(decode("*** --- ***").unwrap(), "sos");
}

#[test]
fn encode_trims_surrounding_white_space() {
    assert_eq!(encode("  sos\t").unwrap(), "... ___ ...");
    assert_eq!(encode("\u{a0}sos\u{3000}").unwrap(), "... ___ ...");
}

#[test]
fn encode_keeps_inner_spaces() {
    assert_eq!(encode("a  b").unwrap(), "._ / / _...");
}

#[test]
fn decode_trims_words() {
    assert_eq!(decode("  ._   /   _...  ").unwrap(), "a b");
}

#[test]
fn decode_records_empty_tokens() {
    let e = decode("..  ..").unwrap_err();
    assert_eq!(e.unsupported_characters, vec!["".to_string()]);
    assert_eq!(e.result, "i#i");
}

#[test]
fn decode_records_empty_words() {
    let e = decode("._ // _...").unwrap_err();
    assert_eq!(e.unsupported_characters, vec!["".to_string()]);
    assert_eq!(e.result, "a # b");
}

#[test]
fn encode_folds_case() {
    assert_eq!(encode("SOS").unwrap(), "... ___ ...");
    let e = encode("É").unwrap_err();
    assert_eq!(e.unsupported_characters, vec!["é".to_string()]);
    assert_eq!(e.result, "#");
}

#[test]
fn encode_folded_takes_text_as_it_stands() {
    assert_eq!(encode_folded("sos").unwrap(), "... ___ ...");
    let e = encode_folded("SOS").unwrap_err();
    assert_eq!(e.unsupported_characters, vec!["S".to_string(), "O".to_string(), "S".to_string()]);
    assert_eq!(e.result, "# # #");
}
