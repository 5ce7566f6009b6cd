use morse::encode::encode;

#[test]
fn encode_lower_case_letters() {
    assert_eq!("._", encode("a").unwrap());
    assert_eq!("_...", encode("b").unwrap());
    assert_eq!("_._.", encode("c").unwrap());
    assert_eq!("_..", encode("d").unwrap());
    assert_eq!(".", encode("e").unwrap());
    assert_eq!(".._.", encode("f").unwrap());
    assert_eq!("__.", encode("g").unwrap());
    assert_eq!("....", encode("h").unwrap());
    assert_eq!("..", encode("i").unwrap());
    assert_eq!(".___", encode("j").unwrap());
    assert_eq!("_._", encode("k").unwrap());
    assert_eq!("._..", encode("l").unwrap());
    assert_eq!("__", encode("m").unwrap());
    assert_eq!("_.", encode("n").unwrap());
    assert_eq!("___", encode("o").unwrap());
    assert_eq!(".__.", encode("p").unwrap());
    assert_eq!("__._", encode("q").unwrap());
    assert_eq!("._.", encode("r").unwrap());
    assert_eq!("...", encode("s").unwrap());
    assert_eq!("_", encode("t").unwrap());
    assert_eq!(".._", encode("u").unwrap());
    assert_eq!("..._", encode("v").unwrap());
    assert_eq!(".__", encode("w").unwrap());
    assert_eq!("_.._", encode("x").unwrap());
    assert_eq!("_.__", encode("y").unwrap());
    assert_eq!("__..", encode("z").unwrap());
}

#[test]
fn encode_upper_case_letters() {
    assert_eq!("._", encode("A").unwrap());
    assert_eq!("_...", encode("B").unwrap());
    assert_eq!("_._.", encode("C").unwrap());
    assert_eq!("_..", encode("D").unwrap());
    assert_eq!(".", encode("E").unwrap());
    assert_eq!(".._.", encode("F").unwrap());
    assert_eq!("__.", encode("G").unwrap());
    assert_eq!("....", encode("H").unwrap());
    assert_eq!("..", encode("I").unwrap());
    assert_eq!(".___", encode("J").unwrap());
    assert_eq!("_._", encode("K").unwrap());
    assert_eq!("._..", encode("L").unwrap());
    assert_eq!("__", encode("M").unwrap());
    assert_eq!("_.", encode("N").unwrap());
    assert_eq!("___", encode("O").unwrap());
    assert_eq!(".__.", encode("P").unwrap());
    assert_eq!("__._", encode("Q").unwrap());
    assert_eq!("._.", encode("R").unwrap());
    assert_eq!("...", encode("S").unwrap());
    assert_eq!("_", encode("T").unwrap());
    assert_eq!(".._", encode("U").unwrap());
    assert_eq!("..._", encode("V").unwrap());
    assert_eq!(".__", encode("W").unwrap());
    assert_eq!("_.._", encode("X").unwrap());
    assert_eq!("_.__", encode("Y").unwrap());
    assert_eq!("__..", encode("Z").unwrap());
}

#[test]
fn encode_numbers() {
    assert_eq!(".____", encode("1").unwrap());
    assert_eq!("..___", encode("2").unwrap());
    assert_eq!("...__", encode("3").unwrap());
    assert_eq!("...._", encode("4").unwrap());
    assert_eq!(".....", encode("5").unwrap());
    assert_eq!("_....", encode("6").unwrap());
    assert_eq!("__...", encode("7").unwrap());
    assert_eq!("___..", encode("8").unwrap());
    assert_eq!("____.", encode("9").unwrap());
    assert_eq!("_____", encode("0").unwrap());
}

#[test]
fn encode_other() {
    assert_eq!("._._._", encode(".").unwrap());
    assert_eq!("__..__", encode(",").unwrap());
    assert_eq!("..__..", encode("?").unwrap());
    assert_eq!(".____.", encode("'").unwrap());
    assert_eq!("_._.__", encode("!").unwrap());
    assert_eq!("_.._.", encode("/").unwrap());
    assert_eq!("_.__.", encode("(").unwrap());
    assert_eq!("_.__._", encode(")").unwrap());
    assert_eq!("._...", encode("&").unwrap());
    assert_eq!("___...", encode(":").unwrap());
    assert_eq!("_._._.", encode(";").unwrap());
    assert_eq!("_..._", encode("=").unwrap());
    assert_eq!("._._.", encode("+").unwrap());
    assert_eq!("_...._", encode("-").unwrap());
    assert_eq!("..__._", encode("_").unwrap());
    assert_eq!("._.._.", encode("\"").unwrap());
    assert_eq!("..._.._", encode("$").unwrap());
    assert_eq!(".__._.", encode("@").unwrap());
}

#[test]
fn encode_word() {
    assert_eq!("._ _... _._.", encode("abc").unwrap());
}

#[test]
fn encode_multiple_words() {
    assert_eq!("._ _... _._. / _.. . .._.", encode("abc def").unwrap());
}

#[test]
fn encode_result_err() {
    let morse = match encode("~Hello!") {
        Ok(x) => {
            assert!(false);
            x
        }
        Err(e) => {
            assert_eq!(e.unsupported_characters.len(), 1);
            assert_eq!(e.unsupported_characters[0], "~");
            assert_eq!("# .... . ._.. ._.. ___ _._.__", e.result);
            e.result
        }
    };
    assert_eq!("# .... . ._.. ._.. ___ _._.__", morse);
}

#[test]
fn encode_result_ok() {
    let morse = match encode("Hello!") {
        Ok(x) => {
            assert_eq!(".... . ._.. ._.. ___ _._.__", x);
            x
        }
        Err(e) => {
            assert!(false);
            e.result
        }
    };
    assert_eq!(".... . ._.. ._.. ___ _._.__", morse);
}
