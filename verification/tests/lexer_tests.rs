use fv1_asm::{Float32, Lexer, Token};
use std::ops::Range;

fn fl(value: f32) -> Float32 {
    Float32::from_bits(value.to_bits())
}

fn lex(source: &str) -> Vec<(Result<Token, ()>, Range<usize>)> {
    Lexer::new(source).tokenize()
}

fn tokens_of(source: &str) -> Vec<Token> {
    lex(source).into_iter().map(|(tok, _)| tok).collect::<Result<Vec<_>, _>>().unwrap()
}

#[test]
fn test_basic_tokens() {
    let source = "rdax adcl, 0.5";
    let tokens = tokens_of(source);

    assert_eq!(tokens[0], Token::RDAX);
    assert_eq!(tokens[1], Token::ADCL);
    assert_eq!(tokens[2], Token::Comma);
    assert_eq!(tokens[3], Token::Float(fl(0.5)));
}

#[test]
fn test_case_insensitive() {
    let source = "RDAX AdCl, 0.5";
    let tokens = tokens_of(source);

    assert_eq!(tokens[0], Token::RDAX);
    assert_eq!(tokens[1], Token::ADCL);
}

#[test]
fn test_comments() {
    let source = r#"
            rdax adcl, 0.5  ; read left input
            ; full line comment
            sof 0, 0        ; clear
        "#;

    let tokens = tokens_of(source);

    // Should skip comments and only get instruction tokens
    assert_eq!(tokens.len(), 8); // RDAX ADCL , 0.5 SOF 0 , 0
}

#[test]
fn test_register_tokens() {
    let source = "reg0 reg15 reg31";
    let tokens = tokens_of(source);

    assert_eq!(tokens[0], Token::REG(0));
    assert_eq!(tokens[1], Token::REG(15));
    assert_eq!(tokens[2], Token::REG(31));
}

#[test]
fn test_pot_tokens() {
    let source = "pot0 pot1 pot2";
    let tokens = tokens_of(source);

    assert_eq!(tokens[0], Token::POT(0));
    assert_eq!(tokens[1], Token::POT(1));
    assert_eq!(tokens[2], Token::POT(2));
}

#[test]
fn test_numeric_literals() {
    let source = "1.5 -0.5 42 -10 0x1A $FF %1010";
    let tokens = tokens_of(source);

    assert_eq!(tokens[0], Token::Float(fl(1.5)));
    assert_eq!(tokens[1], Token::Float(fl(-0.5)));
    assert_eq!(tokens[2], Token::Integer(42));
    assert_eq!(tokens[3], Token::Integer(-10));
    assert_eq!(tokens[4], Token::Integer(0x1A));
    assert_eq!(tokens[5], Token::Integer(0xFF));
    assert_eq!(tokens[6], Token::Integer(0b1010));
}

#[test]
fn test_identifiers() {
    let source = "my_label loop_start _private";
    let tokens = tokens_of(source);

    assert_eq!(tokens[0], Token::Identifier("my_label".to_string()));
    assert_eq!(tokens[1], Token::Identifier("loop_start".to_string()));
    assert_eq!(tokens[2], Token::Identifier("_private".to_string()));
}

#[test]
fn test_lfo_tokens() {
    let source = "sin0 sin1 rmp0 rmp1";
    let tokens = tokens_of(source);

    assert_eq!(tokens[0], Token::SIN0);
    assert_eq!(tokens[1], Token::SIN1);
    assert_eq!(tokens[2], Token::RMP0);
    assert_eq!(tokens[3], Token::RMP1);
}

#[test]
fn test_skip_conditions() {
    let source = "gez neg zrc zro run";
    let tokens = tokens_of(source);

    assert_eq!(tokens[0], Token::GEZ);
    assert_eq!(tokens[1], Token::NEG);
    assert_eq!(tokens[2], Token::ZRC);
    assert_eq!(tokens[3], Token::ZRO);
    assert_eq!(tokens[4], Token::RUN);
}

#[test]
fn test_directives() {
    let source = "equ mem";
    let tokens = tokens_of(source);

    assert_eq!(tokens[0], Token::EQU);
    assert_eq!(tokens[1], Token::MEM);
}

#[test]
fn test_label_syntax() {
    let source = "loop: rdax adcl, 1.0";
    let tokens = tokens_of(source);

    assert_eq!(tokens[0], Token::Identifier("loop".to_string()));
    assert_eq!(tokens[1], Token::Colon);
    assert_eq!(tokens[2], Token::RDAX);
}

#[test]
fn every_keyword_in_any_case() {
    let words: Vec<(&str, Token)> = vec![
        ("rdax", Token::RDAX),
        ("rda", Token::RDA),
        ("wrax", Token::WRAX),
        ("wra", Token::WRA),
        ("wrap", Token::WRAP),
        ("rmpa", Token::RMPA),
        ("mulx", Token::MULX),
        ("rdfx", Token::RDFX),
        ("absa", Token::ABSA),
        ("ldax", Token::LDAX),
        ("rdfx2", Token::RDFX2),
        ("sof", Token::SOF),
        ("and", Token::AND),
        ("or", Token::OR),
        ("xor", Token::XOR),
        ("shl", Token::SHL),
        ("shr", Token::SHR),
        ("clr", Token::CLR),
        ("nop", Token::NOP),
        ("exp", Token::EXP),
        ("log", Token::LOG),
        ("skp", Token::SKP),
        ("wlds", Token::WLDS),
        ("jam", Token::JAM),
        ("cho", Token::CHO),
        ("acc", Token::ACC),
        ("adcl", Token::ADCL),
        ("adcr", Token::ADCR),
        ("dacl", Token::DACL),
        ("dacr", Token::DACR),
        ("addr_ptr", Token::ADDR_PTR),
        ("lr", Token::LR),
        ("sin0", Token::SIN0),
        ("sin1", Token::SIN1),
        ("rmp0", Token::RMP0),
        ("rmp1", Token::RMP1),
        ("sin0_rate", Token::SIN0_RATE),
        ("sin0_range", Token::SIN0_RANGE),
        ("sin1_rate", Token::SIN1_RATE),
        ("sin1_range", Token::SIN1_RANGE),
        ("rmp0_rate", Token::RMP0_RATE),
        ("rmp0_range", Token::RMP0_RANGE),
        ("rmp1_rate", Token::RMP1_RATE),
        ("rmp1_range", Token::RMP1_RANGE),
        ("gez", Token::GEZ),
        ("neg", Token::NEG),
        ("zrc", Token::ZRC),
        ("zro", Token::ZRO),
        ("run", Token::RUN),
        ("rdal", Token::RDAL),
        ("rptr2", Token::RPTR2),
        ("na", Token::NA),
        ("compc", Token::COMPC),
        ("compa", Token::COMPA),
        ("equ", Token::EQU),
        ("mem", Token::MEM),
        ("spinasm", Token::SPINASM),
    ];
    for (word, token) in words {
        assert_eq!(tokens_of(word), vec![token.clone()], "{}", word);
        assert_eq!(tokens_of(&word.to_uppercase()), vec![token.clone()], "{}", word);
        let mut mixed = String::new();
        for (i, c) in word.chars().enumerate() {
            mixed.push(if i % 2 == 0 { c.to_ascii_uppercase() } else { c });
        }
        assert_eq!(tokens_of(&mixed), vec![token], "{}", mixed);
        // A longer word that begins with a keyword is an identifier.
        let longer = format!("{}x", word);
        if longer != "rdax" && longer != "wrax" {
            assert_eq!(tokens_of(&longer), vec![Token::Identifier(longer.clone())], "{}", longer);
        }
    }
}

#[test]
fn punctuation() {
    assert_eq!(
        tokens_of(", : = | #"),
        vec![Token::Comma, Token::Colon, Token::Equals, Token::Pipe, Token::Hash]
    );
    assert_eq!(tokens_of(",:"), vec![Token::Comma, Token::Colon]);
}

#[test]
fn indexed_registers() {
    for n in 0u8..32 {
        assert_eq!(tokens_of(&format!("reg{}", n)), vec![Token::REG(n)]);
        assert_eq!(tokens_of(&format!("REG{}", n)), vec![Token::REG(n)]);
        assert_eq!(tokens_of(&format!("Reg{}", n)), vec![Token::REG(n)]);
    }
    for word in ["reg32", "reg99", "reg00", "reg01", "reg007", "reg", "reg1x", "reg100", "pot3", "pot", "pot00", "pot10"] {
        assert_eq!(tokens_of(word), vec![Token::Identifier(word.to_string())], "{}", word);
    }
    assert_eq!(tokens_of("POT2"), vec![Token::POT(2)]);
}

#[test]
fn numbers_take_the_longest_match() {
    assert_eq!(tokens_of("1.5"), vec![Token::Float(fl(1.5))]);
    assert_eq!(tokens_of("-0.25"), vec![Token::Float(fl(-0.25))]);
    assert_eq!(tokens_of("1e3"), vec![Token::Float(fl(1000.0))]);
    assert_eq!(tokens_of("1E-2"), vec![Token::Float(fl(0.01))]);
    assert_eq!(tokens_of("2.5e+2"), vec![Token::Float(fl(250.0))]);
    assert_eq!(tokens_of("-3e2"), vec![Token::Float(fl(-300.0))]);
    assert_eq!(tokens_of("0.0"), vec![Token::Float(fl(0.0))]);
    assert_eq!(tokens_of("007"), vec![Token::Integer(7)]);
    assert_eq!(tokens_of("-0"), vec![Token::Integer(0)]);
    assert_eq!(tokens_of("0x10"), vec![Token::Integer(16)]);
    assert_eq!(tokens_of("0xfF"), vec![Token::Integer(255)]);
    assert_eq!(tokens_of("$7fff"), vec![Token::Integer(0x7FFF)]);
    assert_eq!(tokens_of("%0001"), vec![Token::Integer(1)]);
    assert_eq!(tokens_of("0x1e5"), vec![Token::Integer(0x1e5)]);
    // What follows a number without a space is a lexeme of its own.
    assert_eq!(tokens_of("12abc"), vec![Token::Integer(12), Token::Identifier("abc".to_string())]);
    assert_eq!(tokens_of("1e"), vec![Token::Integer(1), Token::Identifier("e".to_string())]);
    assert_eq!(tokens_of("0x"), vec![Token::Integer(0), Token::Identifier("x".to_string())]);
    assert_eq!(tokens_of("1.5e"), vec![Token::Float(fl(1.5)), Token::Identifier("e".to_string())]);
    assert_eq!(tokens_of("%102"), vec![Token::Integer(2), Token::Integer(2)]);
    assert_eq!(tokens_of("1-2"), vec![Token::Integer(1), Token::Integer(-2)]);
    assert_eq!(tokens_of("9223372036854775807"), vec![Token::Integer(i64::MAX)]);
    assert_eq!(tokens_of("-9223372036854775808"), vec![Token::Integer(i64::MIN)]);
    assert_eq!(tokens_of("0x7FFFFFFFFFFFFFFF"), vec![Token::Integer(i64::MAX)]);
}

#[test]
fn invalid_text_is_reported_with_its_span() {
    let found = lex("clr @ nop");
    assert_eq!(found.len(), 3);
    assert_eq!(found[0], (Ok(Token::CLR), 0..3));
    assert_eq!(found[1], (Err(()), 4..5));
    assert_eq!(found[2], (Ok(Token::NOP), 6..9));

    assert_eq!(lex("1."), vec![(Ok(Token::Integer(1)), 0..1), (Err(()), 1..2)]);
    assert_eq!(lex("-"), vec![(Err(()), 0..1)]);
    assert_eq!(lex("$"), vec![(Err(()), 0..1)]);
    assert_eq!(lex("$g"), vec![(Err(()), 0..1), (Ok(Token::Identifier("g".to_string())), 1..2)]);
    assert_eq!(lex("%2"), vec![(Err(()), 0..1), (Ok(Token::Integer(2)), 1..2)]);
    // A character of several bytes is one invalid lexeme.
    assert_eq!(lex("é"), vec![(Err(()), 0..2)]);
    assert_eq!(lex("a→b").len(), 3);
    assert_eq!(lex("a→b")[1], (Err(()), 1..4));
    // A whole number that does not fit 64 bits is invalid as a whole.
    assert_eq!(lex("9223372036854775808"), vec![(Err(()), 0..19)]);
    assert_eq!(lex("-9223372036854775809"), vec![(Err(()), 0..20)]);
    assert_eq!(lex("0x8000000000000000"), vec![(Err(()), 0..18)]);
    assert_eq!(lex("99999999999999999999999999"), vec![(Err(()), 0..26)]);
}

#[test]
fn spans_are_byte_offsets() {
    let source = "  rdax\tadcl ,\n0.5;x\n; all comment\n\r\n wrax";
    let found = lex(source);
    let spans: Vec<Range<usize>> = found.iter().map(|(_, span)| span.clone()).collect();
    assert_eq!(spans, vec![2..6, 7..11, 12..13, 14..17, 37..41]);
    for (token, span) in &found {
        assert!(token.is_ok());
        assert!(span.start < span.end && span.end <= source.len());
    }
    assert!(lex("").is_empty());
    assert!(lex("   \n\t ; only a comment").is_empty());
    assert!(lex(";").is_empty());
}

#[test]
fn the_lexer_can_be_started_again() {
    let source = "sof 0.5, -1";
    assert_eq!(lex(source), lex(source));
    let mut lexer = Lexer::new(source);
    let mut count = 0;
    while lexer.next().is_some() {
        count += 1;
    }
    assert_eq!(count, 4);
    assert!(lexer.next().is_none());
    assert!(lexer.next().is_none());
    let mut lexer = Lexer::new(source);
    assert_eq!(lexer.next(), Some((Ok(Token::SOF), 0..3)));
    assert_eq!(lexer.tokenize().len(), 3);
}

#[test]
fn float_literals_have_the_nearest_value() {
    let literals = [
        "0.0", "-0.0", "1.0", "0.5", "-0.5", "0.1", "0.2", "0.3", "1.5", "-1.999", "0.999969482421875",
        "3.14159265358979", "2.718281828", "1e0", "1E5", "1e-5", "-1e+5", "12.5e-3", "0.000001",
        "16777217.0", "16777216.5", "33554433e0", "340282346638528859811704183484516925440.0",
        "340282356779733661637539395458142568447.9", "340282356779733661637539395458142568448.0",
        "1e38", "3.4028235e38", "3.4028236e38", "1e39", "1e400", "-1e400", "1e-37", "1.17549435e-38",
        "1.17549421e-38", "1e-45", "1.4e-45", "0.7e-45", "0.70064923216240853546186479164495806564e-45",
        "0.70064923216240853546186479164495806565e-45", "1e-46", "1e-400", "-1e-400",
        "0.000000000000000000000000000000000000000000001", "123456789.123456789e-10",
        "00000.50000", "9.999999e-1", "0.1e1", "100000000000000000000.0e-20",
        "1e99999999999999999999999999999999999999", "1e-99999999999999999999999999999999999999",
        "0.0e99999999999999999999999999999999999999", "4.9406564584124654e-324", "8.5e-46",
    ];
    for literal in literals {
        let expected: f32 = literal.parse().unwrap();
        assert_eq!(
            tokens_of(literal),
            vec![Token::Float(fl(expected))],
            "{}",
            literal
        );
        match &tokens_of(literal)[0] {
            Token::Float(value) => assert_eq!(value.to_bits(), expected.to_bits(), "{}", literal),
            other => panic!("unexpected {:?}", other),
        }
    }
}

#[test]
fn float_literals_agree_with_parsing_at_random() {
    let mut state: u64 = 0x9E37_79B9_7F4A_7C15;
    let mut next = move || {
        state ^= state << 13;
        state ^= state >> 7;
        state ^= state << 17;
        state
    };
    for _ in 0..40_000 {
        let whole = next() >> (next() % 64);
        let fraction = next() >> (next() % 64);
        let zeros = (next() % 12) as usize;
        let exponent = (next() % 100) as i64 - 60;
        let sign = if next() % 2 == 0 { "" } else { "-" };
        let literal = match next() % 3 {
            0 => format!("{}{}.{}{}", sign, whole, "0".repeat(zeros), fraction),
            1 => format!("{}{}.{}{}e{}", sign, whole, "0".repeat(zeros), fraction, exponent),
            _ => format!("{}{}E{:+}", sign, whole, exponent),
        };
        let expected: f32 = literal.parse().unwrap();
        match &tokens_of(&literal)[..] {
            [Token::Float(value)] => assert_eq!(value.to_bits(), expected.to_bits(), "{}", literal),
            other => panic!("{}: unexpected {:?}", literal, other),
        }
    }
}

#[test]
fn every_float_is_read_back_from_its_text() {
    let mut bits: u32 = 0;
    loop {
        let value = f32::from_bits(bits);
        if value.is_finite() {
            for text in [format!("{:?}", value), format!("{:e}", value)] {
                // The grammar of literals has no exponent without digits around it.
                let literal = if text.contains('.') || text.contains('e') { text } else { format!("{}.0", text) };
                let literal = if literal.contains('e') && !literal.contains('.') {
                    literal.replace('e', ".0e")
                } else {
                    literal
                };
                match &tokens_of(&literal)[..] {
                    [Token::Float(found)] => assert_eq!(found.to_bits(), bits, "{}", literal),
                    other => panic!("{}: unexpected {:?}", literal, other),
                }
            }
        }
        match bits.checked_add(977_123) {
            Some(next) => bits = next,
            None => break,
        }
    }
}
