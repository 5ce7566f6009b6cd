//! The alphabet: each supported character and the signal token that stands for it.
use vstd::prelude::*;

use crate::text::chars_of;

verus! {

/// The token of `c`: dots and dashes for a lowercase letter, a digit or a punctuation mark, `/`
/// for the space between words, and `None` for a character outside the alphabet.
pub open spec fn token_of(c: char) -> Option<Seq<char>> {
    match c {
        'a' => Some("._"@),
        'b' => Some("_..."@),
        'c' => Some("_._."@),
        'd' => Some("_.."@),
        'e' => Some("."@),
        'f' => Some(".._."@),
        'g' => Some("__."@),
        'h' => Some("...."@),
        'i' => Some(".."@),
        'j' => Some(".___"@),
        'k' => Some("_._"@),
        'l' => Some("._.."@),
        'm' => Some("__"@),
        'n' => Some("_."@),
        'o' => Some("___"@),
        'p' => Some(".__."@),
        'q' => Some("__._"@),
        'r' => Some("._."@),
        's' => Some("..."@),
        't' => Some("_"@),
        'u' => Some(".._"@),
        'v' => Some("..._"@),
        'w' => Some(".__"@),
        'x' => Some("_.._"@),
        'y' => Some("_.__"@),
        'z' => Some("__.."@),
        '0' => Some("_____"@),
        '1' => Some(".____"@),
        '2' => Some("..___"@),
        '3' => Some("...__"@),
        '4' => Some("...._"@),
        '5' => Some("....."@),
        '6' => Some("_...."@),
        '7' => Some("__..."@),
        '8' => Some("___.."@),
        '9' => Some("____."@),
        '.' => Some("._._._"@),
        ',' => Some("__..__"@),
        '?' => Some("..__.."@),
        '\'' => Some(".____."@),
        '!' => Some("_._.__"@),
        '/' => Some("_.._."@),
        '(' => Some("_.__."@),
        ')' => Some("_.__._"@),
        '&' => Some("._..."@),
        ':' => Some("___..."@),
        ';' => Some("_._._."@),
        '=' => Some("_..._"@),
        '+' => Some("._._."@),
        '-' => Some("_...._"@),
        '_' => Some("..__._"@),
        '"' => Some("._.._."@),
        '$' => Some("..._.._"@),
        '@' => Some(".__._."@),
        ' ' => Some("/"@),
        _ => None,
    }
}

/// The character whose token is `t`, if there is one.
pub open spec fn char_of(t: Seq<char>) -> Option<char> {
    if exists|c: char| token_of(c) == Some(t) {
        Some(choose|c: char| token_of(c) == Some(t))
    } else {
        None
    }
}

/// A sequence of dots and dashes.
pub open spec fn is_signal(t: Seq<char>) -> bool {
    forall|i: int| 0 <= i < t.len() ==> t[i] == '.' || t[i] == '_'
}

/// A signal read as a binary number behind a leading one, a dot as 0 and a dash as 1. Distinct
/// signals have distinct codes.
pub open spec fn signal_code(t: Seq<char>) -> int
    decreases t.len(),
{
    if t.len() == 0 {
        1
    } else {
        2 * signal_code(t.drop_last()) + if t.last() == '_' {
            1int
        } else {
            0int
        }
    }
}

/// The character whose token has the code `n`.
pub open spec fn char_of_code(n: int) -> Option<char> {
    if n == 5 {
        Some('a')
    } else if n == 24 {
        Some('b')
    } else if n == 26 {
        Some('c')
    } else if n == 12 {
        Some('d')
    } else if n == 2 {
        Some('e')
    } else if n == 18 {
        Some('f')
    } else if n == 14 {
        Some('g')
    } else if n == 16 {
        Some('h')
    } else if n == 4 {
        Some('i')
    } else if n == 23 {
        Some('j')
    } else if n == 13 {
        Some('k')
    } else if n == 20 {
        Some('l')
    } else if n == 7 {
        Some('m')
    } else if n == 6 {
        Some('n')
    } else if n == 15 {
        Some('o')
    } else if n == 22 {
        Some('p')
    } else if n == 29 {
        Some('q')
    } else if n == 10 {
        Some('r')
    } else if n == 8 {
        Some('s')
    } else if n == 3 {
        Some('t')
    } else if n == 9 {
        Some('u')
    } else if n == 17 {
        Some('v')
    } else if n == 11 {
        Some('w')
    } else if n == 25 {
        Some('x')
    } else if n == 27 {
        Some('y')
    } else if n == 28 {
        Some('z')
    } else if n == 63 {
        Some('0')
    } else if n == 47 {
        Some('1')
    } else if n == 39 {
        Some('2')
    } else if n == 35 {
        Some('3')
    } else if n == 33 {
        Some('4')
    } else if n == 32 {
        Some('5')
    } else if n == 48 {
        Some('6')
    } else if n == 56 {
        Some('7')
    } else if n == 60 {
        Some('8')
    } else if n == 62 {
        Some('9')
    } else if n == 85 {
        Some('.')
    } else if n == 115 {
        Some(',')
    } else if n == 76 {
        Some('?')
    } else if n == 94 {
        Some('\'')
    } else if n == 107 {
        Some('!')
    } else if n == 50 {
        Some('/')
    } else if n == 54 {
        Some('(')
    } else if n == 109 {
        Some(')')
    } else if n == 40 {
        Some('&')
    } else if n == 120 {
        Some(':')
    } else if n == 106 {
        Some(';')
    } else if n == 49 {
        Some('=')
    } else if n == 42 {
        Some('+')
    } else if n == 97 {
        Some('-')
    } else if n == 77 {
        Some('_')
    } else if n == 82 {
        Some('"')
    } else if n == 137 {
        Some('$')
    } else if n == 90 {
        Some('@')
    } else {
        None
    }
}

/// Every token but the word separator is a signal of one to seven symbols, and its code leads back
/// to its character.
pub(crate) proof fn lemma_code_of_token(c: char)
    requires
        token_of(c) is Some,
        c != ' ',
    ensures
        is_signal(token_of(c)->0),
        1 <= token_of(c)->0.len() <= 7,
        char_of_code(signal_code(token_of(c)->0)) == Some(c),
{
        reveal_strlit(".");
        reveal_strlit("..");
        reveal_strlit("...");
        reveal_strlit("....");
        reveal_strlit(".....");
        reveal_strlit("...._");
        reveal_strlit("..._");
        reveal_strlit("..._.._");
        reveal_strlit("...__");
        reveal_strlit(".._");
        reveal_strlit(".._.");
        reveal_strlit("..__..");
        reveal_strlit("..__._");
        reveal_strlit("..___");
        reveal_strlit("._");
        reveal_strlit("._.");
        reveal_strlit("._..");
        reveal_strlit("._...");
        reveal_strlit("._.._.");
        reveal_strlit("._._.");
        reveal_strlit("._._._");
        reveal_strlit(".__");
        reveal_strlit(".__.");
        reveal_strlit(".__._.");
        reveal_strlit(".___");
        reveal_strlit(".____");
        reveal_strlit(".____.");
        reveal_strlit("_");
        reveal_strlit("_.");
        reveal_strlit("_..");
        reveal_strlit("_...");
        reveal_strlit("_....");
        reveal_strlit("_...._");
        reveal_strlit("_..._");
        reveal_strlit("_.._");
        reveal_strlit("_.._.");
        reveal_strlit("_._");
        reveal_strlit("_._.");
        reveal_strlit("_._._.");
        reveal_strlit("_._.__");
        reveal_strlit("_.__");
        reveal_strlit("_.__.");
        reveal_strlit("_.__._");
        reveal_strlit("__");
        reveal_strlit("__.");
        reveal_strlit("__..");
        reveal_strlit("__...");
        reveal_strlit("__..__");
        reveal_strlit("__._");
        reveal_strlit("___");
        reveal_strlit("___..");
        reveal_strlit("___...");
        reveal_strlit("____.");
        reveal_strlit("_____");
    reveal_with_fuel(signal_code, 8);
}

/// Each code in the table is the code of its character's token.
proof fn lemma_token_of_code(n: int)
    requires
        char_of_code(n) is Some,
    ensures
        token_of(char_of_code(n)->0) is Some,
        char_of_code(n)->0 != ' ',
        signal_code(token_of(char_of_code(n)->0)->0) == n,
{
        reveal_strlit(".");
        reveal_strlit("..");
        reveal_strlit("...");
        reveal_strlit("....");
        reveal_strlit(".....");
        reveal_strlit("...._");
        reveal_strlit("..._");
        reveal_strlit("..._.._");
        reveal_strlit("...__");
        reveal_strlit(".._");
        reveal_strlit(".._.");
        reveal_strlit("..__..");
        reveal_strlit("..__._");
        reveal_strlit("..___");
        reveal_strlit("._");
        reveal_strlit("._.");
        reveal_strlit("._..");
        reveal_strlit("._...");
        reveal_strlit("._.._.");
        reveal_strlit("._._.");
        reveal_strlit("._._._");
        reveal_strlit(".__");
        reveal_strlit(".__.");
        reveal_strlit(".__._.");
        reveal_strlit(".___");
        reveal_strlit(".____");
        reveal_strlit(".____.");
        reveal_strlit("_");
        reveal_strlit("_.");
        reveal_strlit("_..");
        reveal_strlit("_...");
        reveal_strlit("_....");
        reveal_strlit("_...._");
        reveal_strlit("_..._");
        reveal_strlit("_.._");
        reveal_strlit("_.._.");
        reveal_strlit("_._");
        reveal_strlit("_._.");
        reveal_strlit("_._._.");
        reveal_strlit("_._.__");
        reveal_strlit("_.__");
        reveal_strlit("_.__.");
        reveal_strlit("_.__._");
        reveal_strlit("__");
        reveal_strlit("__.");
        reveal_strlit("__..");
        reveal_strlit("__...");
        reveal_strlit("__..__");
        reveal_strlit("__._");
        reveal_strlit("___");
        reveal_strlit("___..");
        reveal_strlit("___...");
        reveal_strlit("____.");
        reveal_strlit("_____");
    reveal_with_fuel(signal_code, 8);
}

/// Codes tell signals apart: equal codes come from equal signals.
proof fn lemma_signal_code_injective(s: Seq<char>, t: Seq<char>)
    requires
        is_signal(s),
        is_signal(t),
        signal_code(s) == signal_code(t),
    ensures
        s == t,
    decreases s.len(),
{
    lemma_signal_code_positive(s);
    lemma_signal_code_positive(t);
    if s.len() > 0 && t.len() > 0 {
        lemma_signal_code_positive(s.drop_last());
        lemma_signal_code_injective(s.drop_last(), t.drop_last());
        assert(s =~= t.drop_last().push(t.last()));
    } else if s.len() > 0 {
        lemma_signal_code_positive(s.drop_last());
    } else if t.len() > 0 {
        lemma_signal_code_positive(t.drop_last());
    } else {
        assert(s =~= t);
    }
}

proof fn lemma_signal_code_positive(t: Seq<char>)
    ensures
        signal_code(t) >= 1,
    decreases t.len(),
{
    if t.len() > 0 {
        lemma_signal_code_positive(t.drop_last());
    }
}

/// No two characters share a token.
proof fn lemma_token_injective(c: char, d: char)
    requires
        token_of(c) is Some,
        token_of(c) == token_of(d),
    ensures
        c == d,
{
    reveal_strlit("/");
    if c != ' ' {
        lemma_code_of_token(c);
        if d != ' ' {
            lemma_code_of_token(d);
        } else {
            assert(!is_signal(token_of(c)->0));
        }
    } else if d != ' ' {
        lemma_code_of_token(d);
        assert(!is_signal(token_of(d)->0));
    }
}

/// Decoding a character's token gives the character back.
pub proof fn lemma_token_round_trip(c: char)
    requires
        token_of(c) is Some,
    ensures
        char_of(token_of(c)->0) == Some(c),
{
    let t = token_of(c)->0;
    assert(exists|d: char| token_of(d) == Some(t));
    let d = choose|d: char| token_of(d) == Some(t);
    lemma_token_injective(c, d);
}

/// A signal of one to seven symbols is looked up through its code.
proof fn lemma_char_of_signal(t: Seq<char>)
    requires
        is_signal(t),
        1 <= t.len() <= 7,
    ensures
        char_of(t) == char_of_code(signal_code(t)),
{
    if char_of_code(signal_code(t)) is Some {
        let c = char_of_code(signal_code(t))->0;
        lemma_token_of_code(signal_code(t));
        lemma_code_of_token(c);
        lemma_signal_code_injective(token_of(c)->0, t);
        lemma_token_round_trip(c);
    } else if exists|c: char| token_of(c) == Some(t) {
        let c = choose|c: char| token_of(c) == Some(t);
        reveal_strlit("/");
        if c == ' ' {
            assert(!is_signal(token_of(c)->0));
        } else {
            lemma_code_of_token(c);
        }
    }
}

/// Nothing but a signal of one to seven symbols, or the word separator, is a token.
proof fn lemma_char_of_other(t: Seq<char>)
    requires
        !(is_signal(t) && 1 <= t.len() <= 7),
        t != "/"@,
    ensures
        char_of(t) is None,
{
    if exists|c: char| token_of(c) == Some(t) {
        let c = choose|c: char| token_of(c) == Some(t);
        if c != ' ' {
            lemma_code_of_token(c);
        }
    }
}

/// The token of `c`, or `None` for a character outside the alphabet.
pub fn character_to_token(c: char) -> (r: Option<&'static str>)
    ensures
        match r {
            Some(t) => token_of(c) == Some(t@),
            None => token_of(c) is None,
        },
{
    match c {
        'a' => Some("._"),
        'b' => Some("_..."),
        'c' => Some("_._."),
        'd' => Some("_.."),
        'e' => Some("."),
        'f' => Some(".._."),
        'g' => Some("__."),
        'h' => Some("...."),
        'i' => Some(".."),
        'j' => Some(".___"),
        'k' => Some("_._"),
        'l' => Some("._.."),
        'm' => Some("__"),
        'n' => Some("_."),
        'o' => Some("___"),
        'p' => Some(".__."),
        'q' => Some("__._"),
        'r' => Some("._."),
        's' => Some("..."),
        't' => Some("_"),
        'u' => Some(".._"),
        'v' => Some("..._"),
        'w' => Some(".__"),
        'x' => Some("_.._"),
        'y' => Some("_.__"),
        'z' => Some("__.."),
        '0' => Some("_____"),
        '1' => Some(".____"),
        '2' => Some("..___"),
        '3' => Some("...__"),
        '4' => Some("...._"),
        '5' => Some("....."),
        '6' => Some("_...."),
        '7' => Some("__..."),
        '8' => Some("___.."),
        '9' => Some("____."),
        '.' => Some("._._._"),
        ',' => Some("__..__"),
        '?' => Some("..__.."),
        '\'' => Some(".____."),
        '!' => Some("_._.__"),
        '/' => Some("_.._."),
        '(' => Some("_.__."),
        ')' => Some("_.__._"),
        '&' => Some("._..."),
        ':' => Some("___..."),
        ';' => Some("_._._."),
        '=' => Some("_..._"),
        '+' => Some("._._."),
        '-' => Some("_...._"),
        '_' => Some("..__._"),
        '"' => Some("._.._."),
        '$' => Some("..._.._"),
        '@' => Some(".__._."),
        ' ' => Some("/"),
        _ => None,
    }
}

fn char_of_code_exec(n: u32) -> (r: Option<char>)
    ensures
        r == char_of_code(n as int),
{
    match n {
        5 => Some('a'),
        24 => Some('b'),
        26 => Some('c'),
        12 => Some('d'),
        2 => Some('e'),
        18 => Some('f'),
        14 => Some('g'),
        16 => Some('h'),
        4 => Some('i'),
        23 => Some('j'),
        13 => Some('k'),
        20 => Some('l'),
        7 => Some('m'),
        6 => Some('n'),
        15 => Some('o'),
        22 => Some('p'),
        29 => Some('q'),
        10 => Some('r'),
        8 => Some('s'),
        3 => Some('t'),
        9 => Some('u'),
        17 => Some('v'),
        11 => Some('w'),
        25 => Some('x'),
        27 => Some('y'),
        28 => Some('z'),
        63 => Some('0'),
        47 => Some('1'),
        39 => Some('2'),
        35 => Some('3'),
        33 => Some('4'),
        32 => Some('5'),
        48 => Some('6'),
        56 => Some('7'),
        60 => Some('8'),
        62 => Some('9'),
        85 => Some('.'),
        115 => Some(','),
        76 => Some('?'),
        94 => Some('\''),
        107 => Some('!'),
        50 => Some('/'),
        54 => Some('('),
        109 => Some(')'),
        40 => Some('&'),
        120 => Some(':'),
        106 => Some(';'),
        49 => Some('='),
        42 => Some('+'),
        97 => Some('-'),
        77 => Some('_'),
        82 => Some('"'),
        137 => Some('$'),
        90 => Some('@'),
        _ => None,
    }
}

spec fn pow2(n: nat) -> nat
    decreases n,
{
    if n == 0 {
        1
    } else {
        2 * pow2((n - 1) as nat)
    }
}

proof fn lemma_pow2_small(n: nat)
    requires
        n <= 7,
    ensures
        pow2(n) <= 128,
{
    reveal_with_fuel(pow2, 8);
}

/// The character whose token is `t`.
pub fn lookup_token(t: &[char]) -> (r: Option<char>)
    ensures
        r == char_of(t@),
{
    if t.len() == 1 && t[0] == '/' {
        proof {
            reveal_strlit("/");
            assert(t@ =~= "/"@);
            lemma_token_round_trip(' ');
        }
        return Some(' ');
    }
    proof {
        reveal_strlit("/");
        if t@ == "/"@ {
            assert(t@[0] == '/');
        }
    }
    if t.len() == 0 || t.len() > 7 {
        proof {
            lemma_char_of_other(t@);
        }
        return None;
    }
    let mut code: u32 = 1;
    let mut i: usize = 0;
    proof {
        reveal_with_fuel(pow2, 2);
        assert(t@.take(0) =~= Seq::<char>::empty());
    }
    while i < t.len()
        invariant
            1 <= t.len() <= 7,
            t@ != "/"@,
            0 <= i <= t.len(),
            is_signal(t@.take(i as int)),
            code == signal_code(t@.take(i as int)),
            code < pow2((i + 1) as nat),
        decreases t.len() - i,
    {
        assert(t@.take(i + 1).drop_last() =~= t@.take(i as int));
        proof {
            lemma_pow2_small((i + 1) as nat);
        }
        if t[i] == '.' {
            code = 2 * code;
        } else if t[i] == '_' {
            code = 2 * code + 1;
        } else {
            proof {
                assert(!is_signal(t@));
                lemma_char_of_other(t@);
            }
            return None;
        }
        i = i + 1;
        proof {
            assert(pow2((i + 1) as nat) == 2 * pow2(i as nat));
        }
    }
    proof {
        assert(t@.take(i as int) =~= t@);
        lemma_char_of_signal(t@);
    }
    char_of_code_exec(code)
}

/// The character whose token is `token`, or `None` where no character has that token.
pub fn token_to_character(token: &str) -> (r: Option<char>)
    ensures
        r == char_of(token@),
{
    let t = chars_of(token);
    lookup_token(t.as_slice())
}

} // verus!
