use battleship::cell::BOARD_SIZE;
use battleship::input::{parse_coordinates, InputError};

#[test]
fn parses_a_plain_pair() {
    assert_eq!(parse_coordinates("2,3"), Ok((2, 3)));
    assert_eq!(parse_coordinates("0,0"), Ok((0, 0)));
    assert_eq!(parse_coordinates("9,9"), Ok((9, 9)));
    assert_eq!(parse_coordinates("7,1"), Ok((7, 1)));
}

#[test]
fn parses_every_square() {
    for row in 0..BOARD_SIZE {
        for col in 0..BOARD_SIZE {
            assert_eq!(parse_coordinates(&format!("{},{}", row, col)), Ok((row, col)));
        }
    }
}

#[test]
fn ignores_white_space_around_the_numerals() {
    assert_eq!(parse_coordinates(" 2 , 3 "), Ok((2, 3)));
    assert_eq!(parse_coordinates("2,3\n"), Ok((2, 3)));
    assert_eq!(parse_coordinates("2,3\r\n"), Ok((2, 3)));
    assert_eq!(parse_coordinates("\t4\t,\t5\t"), Ok((4, 5)));
    assert_eq!(parse_coordinates("   6,7"), Ok((6, 7)));
    assert_eq!(parse_coordinates("6   ,   7"), Ok((6, 7)));
    assert_eq!(parse_coordinates("\u{a0}1\u{2003},\u{3000}8\u{85}"), Ok((1, 8)));
}

#[test]
fn white_space_is_what_the_standard_library_calls_white_space() {
    for code in 0..=0x3ffff_u32 {
        if let Some(c) = char::from_u32(code) {
            let line = format!("{}2{},{}3{}", c, c, c, c);
            let parsed = parse_coordinates(&line);
            if c.is_whitespace() {
                assert_eq!(parsed, Ok((2, 3)), "U+{:04X}", code);
            } else {
                assert_ne!(parsed, Ok((2, 3)), "U+{:04X}", code);
            }
        }
    }
}

#[test]
fn accepts_a_plus_sign_and_leading_zeros() {
    assert_eq!(parse_coordinates("+2,+3"), Ok((2, 3)));
    assert_eq!(parse_coordinates("002,0003"), Ok((2, 3)));
    assert_eq!(parse_coordinates("+009, 000"), Ok((9, 0)));
    assert_eq!(parse_coordinates("00000000000000000000000000000000000004,1"), Ok((4, 1)));
}

#[test]
fn agrees_with_the_standard_parser_on_numerals() {
    for token in ["5", "+5", "05", "-5", "+", "", "5 5", "++5", "+-5", "5+", "0x5", "5.0", "1e0", "\u{665}"] {
        let line = format!("{},1", token);
        let expected = match token.trim().parse::<usize>() {
            Ok(n) if n < BOARD_SIZE => Ok((n, 1)),
            Ok(_) => Err(InputError::OutOfRange),
            Err(_) => Err(InputError::NotANumber),
        };
        assert_eq!(parse_coordinates(&line), expected, "{:?}", token);
    }
}

#[test]
fn rejects_a_wrong_number_of_tokens() {
    assert_eq!(parse_coordinates(""), Err(InputError::TokenCount));
    assert_eq!(parse_coordinates("abc"), Err(InputError::TokenCount));
    assert_eq!(parse_coordinates("5"), Err(InputError::TokenCount));
    assert_eq!(parse_coordinates("2 3"), Err(InputError::TokenCount));
    assert_eq!(parse_coordinates("1,2,3"), Err(InputError::TokenCount));
    assert_eq!(parse_coordinates("1,2,"), Err(InputError::TokenCount));
    assert_eq!(parse_coordinates(",,"), Err(InputError::TokenCount));
    assert_eq!(parse_coordinates("a,b,c"), Err(InputError::TokenCount));
    assert_eq!(parse_coordinates("2;3"), Err(InputError::TokenCount));
}

#[test]
fn rejects_a_token_that_is_no_numeral() {
    assert_eq!(parse_coordinates(","), Err(InputError::NotANumber));
    assert_eq!(parse_coordinates("1,"), Err(InputError::NotANumber));
    assert_eq!(parse_coordinates(",1"), Err(InputError::NotANumber));
    assert_eq!(parse_coordinates(" , "), Err(InputError::NotANumber));
    assert_eq!(parse_coordinates("a,b"), Err(InputError::NotANumber));
    assert_eq!(parse_coordinates("1,b"), Err(InputError::NotANumber));
    assert_eq!(parse_coordinates("a,1"), Err(InputError::NotANumber));
    assert_eq!(parse_coordinates("-1,2"), Err(InputError::NotANumber));
    assert_eq!(parse_coordinates("1.5,2"), Err(InputError::NotANumber));
    assert_eq!(parse_coordinates("1 2,3"), Err(InputError::NotANumber));
    assert_eq!(parse_coordinates("+,3"), Err(InputError::NotANumber));
    assert_eq!(parse_coordinates("2,+ 3"), Err(InputError::NotANumber));
    assert_eq!(parse_coordinates("(2,3)"), Err(InputError::NotANumber));
}

#[test]
fn rejects_a_number_off_the_board() {
    assert_eq!(parse_coordinates("10,0"), Err(InputError::OutOfRange));
    assert_eq!(parse_coordinates("0,10"), Err(InputError::OutOfRange));
    assert_eq!(parse_coordinates("10,10"), Err(InputError::OutOfRange));
    assert_eq!(parse_coordinates("11,3"), Err(InputError::OutOfRange));
    assert_eq!(parse_coordinates("3,100"), Err(InputError::OutOfRange));
    assert_eq!(parse_coordinates("3,0010"), Err(InputError::OutOfRange));
    assert_eq!(parse_coordinates("18446744073709551615,0"), Err(InputError::OutOfRange));
    assert_eq!(parse_coordinates("18446744073709551616,0"), Err(InputError::OutOfRange));
    assert_eq!(
        parse_coordinates("0,99999999999999999999999999999999999999999999"),
        Err(InputError::OutOfRange)
    );
}

#[test]
fn a_bad_numeral_outweighs_a_number_off_the_board() {
    assert_eq!(parse_coordinates("10,x"), Err(InputError::NotANumber));
    assert_eq!(parse_coordinates("x,10"), Err(InputError::NotANumber));
    assert_eq!(parse_coordinates("99,"), Err(InputError::NotANumber));
}

#[test]
fn the_token_count_outweighs_everything_else() {
    assert_eq!(parse_coordinates("10,x,1"), Err(InputError::TokenCount));
    assert_eq!(parse_coordinates("99"), Err(InputError::TokenCount));
    assert_eq!(parse_coordinates("x"), Err(InputError::TokenCount));
}

#[test]
fn accepted_squares_are_on_the_board() {
    for a in 0..30 {
        for b in 0..30 {
            match parse_coordinates(&format!("{} , {}", a, b)) {
                Ok((row, col)) => {
                    assert_eq!((row, col), (a, b));
                    assert!(row < BOARD_SIZE && col < BOARD_SIZE);
                }
                Err(error) => {
                    assert_eq!(error, InputError::OutOfRange);
                    assert!(a >= BOARD_SIZE || b >= BOARD_SIZE);
                }
            }
        }
    }
}

#[test]
fn malformed_line_is_rejected_and_the_next_line_read() {
    let lines = ["abc", "2,3"];
    let mut asked_again = 0;
    let mut square = None;
    for line in lines {
        match parse_coordinates(line) {
            Ok(found) => {
                square = Some(found);
                break;
            }
            Err(_) => asked_again += 1,
        }
    }
    assert_eq!(asked_again, 1);
    assert_eq!(square, Some((2, 3)));
    assert!(parse_coordinates("abc").is_err());
    assert_eq!(parse_coordinates("2,3"), Ok((2, 3)));
}
