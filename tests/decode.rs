use morse::decode::decode;

#[test]
fn decode_lower_case_letters() {
    assert_eq!("a", decode("._").unwrap());
    assert_eq!("b", decode("_...").unwrap());
    assert_eq!("c", decode("_._.").unwrap());
    assert_eq!("d", decode("_..").unwrap());
    assert_eq!("e", decode(".").unwrap());
    assert_eq!("f", decode(".._.").unwrap());
    assert_eq!("g", decode("__.").unwrap());
    assert_eq!("h", decode("....").unwrap());
    assert_eq!("i", decode("..").unwrap());
    assert_eq!("j", decode(".___").unwrap());
    assert_eq!("k", decode("_._").unwrap());
    assert_eq!("l", decode("._..").unwrap());
    assert_eq!("m", decode("__").unwrap());
    assert_eq!("n", decode("_.").unwrap());
    assert_eq!("o", decode("___").unwrap());
    assert_eq!("p", decode(".__.").unwrap());
    assert_eq!("q", decode("__._").unwrap());
    assert_eq!("r", decode("._.").unwrap());
    assert_eq!("s", decode("...").unwrap());
    assert_eq!("t", decode("_").unwrap());
    assert_eq!("u", decode(".._").unwrap());
    assert_eq!("v", decode("..._").unwrap());
    assert_eq!("w", decode(".__").unwrap());
    assert_eq!("x", decode("_.._").unwrap());
    assert_eq!("y", decode("_.__").unwrap());
    assert_eq!("z", decode("__..").unwrap());
}

#[test]
fn decode_numbers() {
    assert_eq!("1", decode(".____").unwrap());
    assert_eq!("2", decode("..___").unwrap());
    assert_eq!("3", decode("...__").unwrap());
    assert_eq!("4", decode("...._").unwrap());
    assert_eq!("5", decode(".....").unwrap());
    assert_eq!("6", decode("_....").unwrap());
    assert_eq!("7", decode("__...").unwrap());
    assert_eq!("8", decode("___..").unwrap());
    assert_eq!("9", decode("____.").unwrap());
    assert_eq!("0", decode("_____").unwrap());
}

#[test]
fn decode_other() {
    assert_eq!(".", decode("._._._").unwrap());
    assert_eq!(",", decode("__..__").unwrap());
    assert_eq!("?", decode("..__..").unwrap());
    assert_eq!("'", decode(".____.").unwrap());
    assert_eq!("!", decode("_._.__").unwrap());
    assert_eq!("/", decode("_.._.").unwrap());
    assert_eq!("(", decode("_.__.").unwrap());
    assert_eq!(")", decode("_.__._").unwrap());
    assert_eq!("&", decode("._...").unwrap());
    assert_eq!(":", decode("___...").unwrap());
    assert_eq!(";", decode("_._._.").unwrap());
    assert_eq!("=", decode("_..._").unwrap());
    assert_eq!("+", decode("._._.").unwrap());
    assert_eq!("-", decode("_...._").unwrap());
    assert_eq!("_", decode("..__._").unwrap());
    assert_eq!("\"", decode("._.._.").unwrap());
    assert_eq!("$", decode("..._.._").unwrap());
    assert_eq!("@", decode(".__._.").unwrap());
}

#[test]
fn decode_word() {
    assert_eq!("abc", decode("._ _... _._.").unwrap());
}

#[test]
fn decode_multiple_words() {
    assert_eq!("abc def", decode("._ _... _._. / _.. . .._.").unwrap());
}

#[test]
fn decode_result_err() {
    let morse = match decode("_______ ... ___ ...") {
        Ok(x) => {
            assert!(false);
            x
        }
        Err(e) => {
            assert_eq!(e.unsupported_characters.len(), 1);
            assert_eq!(e.unsupported_characters[0], "_______");
            assert_eq!("#sos", e.result);
            e.result
        }
    };
    assert_eq!("#sos", morse);
}

#[test]
fn decode_result_ok() {
    let morse = match decode("... ___ ...") {
        Ok(x) => {
            assert_eq!("sos", x);
            x
        }
        Err(e) => {
            assert!(false);
            e.result
        }
    };
    assert_eq!("sos", morse);
}
