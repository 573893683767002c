use debuzzy::lexer::{digit, fold_byte, tokenize, Number, Token, MAX_NUMBER};
use regex::Regex;

const SMOKE: &str = "v127l8t112gra#r>c4<rgra#r>c#c4<r4gra#r>c4<ra#rg2r4.,r1r1r1r1l8v127t112drfrg4rdrfrg#g4r4drfrg4rfrd2r4.,v127t112r1r1r1r1r1r1r1r2l8r<<<eff#gggggggggggggggggggg>ccc<a#4>c<ggggff#g4";

const MARCH: &str = "T180V110L16>c8dre-rfrgrr8>crr8<b-rr8grr8ab-a4.b-8r8grarb-8r8arfrdrr8e-rr8de-d4r8c8dre-rfre-8r8dre-rf4e-rdrc2f8r8e-rdrc8r8dre-rf8r8e-rfrg2,O4crrrgrrrcrrrgrrrcrrrgrrrfrrr>crrr<<e-rrrb-rrr";

fn pattern() -> Regex {
    Regex::new(r"(\D\+?\-?\#?)(\d*)(\.?)").unwrap()
}

fn by_pattern(pattern: &Regex, text: &str) -> Vec<Token> {
    let folded = text.replace("#", "+").to_lowercase();
    pattern
        .captures_iter(&folded)
        .map(|cap| {
            let whole = cap.get(0).unwrap();
            let name = cap[1].as_bytes();
            let number = match &cap[2] {
                "" => Number::Absent,
                digits => match digits.parse::<u64>() {
                    Ok(n) if n <= MAX_NUMBER as u64 => Number::Value(n as u32),
                    _ => Number::TooLarge,
                },
            };
            Token {
                start: whole.start(),
                end: whole.end(),
                head: name[0],
                sharp: name.len() > 1 && name[1] == b'+',
                flat: name.len() > 1 && name[name.len() - 1] == b'-',
                number,
                dotted: &cap[3] == ".",
            }
        })
        .collect()
}

fn agree(pattern: &Regex, text: &str) {
    assert_eq!(tokenize(text), by_pattern(pattern, text), "on {:?}", text);
}

#[test]
fn tokens_of_a_note_with_everything() {
    assert_eq!(
        tokenize("c+-16."),
        vec![Token {
            start: 0,
            end: 6,
            head: b'c',
            sharp: true,
            flat: true,
            number: Number::Value(16),
            dotted: true,
        }]
    );
    assert_eq!(
        tokenize("12D#4"),
        vec![Token {
            start: 2,
            end: 5,
            head: b'd',
            sharp: true,
            flat: false,
            number: Number::Value(4),
            dotted: false,
        }]
    );
    assert_eq!(tokenize(""), vec![]);
    assert_eq!(tokenize("0123456789"), vec![]);
}

#[test]
fn folding_and_digits() {
    assert_eq!(fold_byte(b'A'), b'a');
    assert_eq!(fold_byte(b'Z'), b'z');
    assert_eq!(fold_byte(b'a'), b'a');
    assert_eq!(fold_byte(b'#'), b'+');
    assert_eq!(fold_byte(b'@'), b'@');
    assert_eq!(fold_byte(b'['), b'[');
    assert_eq!(fold_byte(b'5'), b'5');
    assert!(digit(b'0'));
    assert!(digit(b'9'));
    assert!(!digit(b'/'));
    assert!(!digit(b':'));
}

#[test]
fn tokens_agree_with_the_pattern_on_pieces() {
    let pattern = pattern();
    for voice in SMOKE.split(',') {
        agree(&pattern, voice);
    }
    for voice in MARCH.split(',') {
        agree(&pattern, voice);
    }
    agree(&pattern, SMOKE);
    agree(&pattern, MARCH);
}

#[test]
fn tokens_agree_with_the_pattern_on_odd_texts() {
    let texts = [
        "", "c", "c4", "c4.", "c.", "c..", "c+", "c-", "c+-", "c-+", "c++", "c--", "c#", "c#-",
        "c+#", "C#4.", "12c", "c4.5d", "c4..5", "+", "-", "+-", "++4", "--.", ".", "..", ".4.",
        "o4", "o", "o+4", "t120l8v100", "><&", "&4.", ">4.<8", "c 4", " c", "c\n4", "c;",
        "x9y", "1", "1.", "1.2", "c007", "c2147483647", "c2147483648",
        "c99999999999999999999999999", "t0l0c0", "#", "##", "#-#", "a#b-c+d.e4f-8.g#16",
        "cdefgab", "o5c,o3c", ",", "c,,d", "-4+4", "+-+-+-", "c+4-", "c-4+", "c.4", "4.c",
    ];
    let pattern = pattern();
    for text in texts {
        agree(&pattern, text);
    }
}

#[test]
fn tokens_agree_with_the_pattern_on_every_short_text() {
    let pattern = pattern();
    let alphabet = [b'c', b'o', b'+', b'-', b'#', b'.', b'4', b'0', b'&', b'X'];
    let mut count = 0;
    for a in alphabet {
        for b in alphabet {
            for c in alphabet {
                for d in alphabet {
                    let text = String::from_utf8(vec![a, b, c, d]).unwrap();
                    agree(&pattern, &text);
                    count += 1;
                }
            }
        }
    }
    assert_eq!(count, 10000);
}
