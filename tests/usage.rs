use morse::decode::decode;
use morse::encode::encode;

#[test]
fn use_encode() {
    match encode("Hello World!") {
        Ok(x) => println!("{}", x),
        Err(e) => {
            println!("The following chars were unsupported {:?}", e.unsupported_characters)
        }
    }
}

#[test]
fn use_decode() {
    match decode("... ___ ...") {
        Ok(x) => println!("{}", x),
        Err(e) => {
            println!("The following chars were unsupported {:?}", e.unsupported_characters)
        }
    }
}
