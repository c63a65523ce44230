use pratt::pratt::Exp;
use pratt::pratt::ParseError;
use pratt::pratt::Parser;
use pratt::pratt::Token;

#[test]
fn test_1() {
    let tokens = vec![Token::Number(15), Token::EndOfInput];
    let mut parser = Parser::new(&tokens);
    assert_eq!(parser.parse(), Ok(Exp::Number(15)));
}

#[test]
fn test_2() {
    let tokens = vec![Token::Number(15), Token::Number(30), Token::EndOfInput];
    let mut parser = Parser::new(&tokens);
    assert_eq!(parser.parse(), Err(ParseError::TrailingInput));
}

#[test]
fn test_3() {
    let tokens = vec![
        Token::Number(15),
        Token::Plus,
        Token::Number(6),
        Token::EndOfInput,
    ];
    let mut parser = Parser::new(&tokens);
    assert_eq!(
        parser.parse(),
        Ok(Exp::Infix(
            Box::new(Exp::Number(15)),
            Token::Plus,
            Box::new(Exp::Number(6))
        ))
    );
}

#[test]
fn test_4() {
    let tokens = vec![
        Token::Number(15),
        Token::Plus,
        Token::Plus,
        Token::EndOfInput,
    ];
    let mut parser = Parser::new(&tokens);
    assert_eq!(parser.parse(), Err(ParseError::ExpectedExpression));
}

#[test]
fn test_5() {
    let tokens = vec![
        Token::Number(15),
        Token::Plus,
        Token::Number(6),
        Token::Minus,
        Token::Number(2),
        Token::EndOfInput,
    ];
    let mut parser = Parser::new(&tokens);
    let left = Exp::Infix(
        Box::new(Exp::Number(15)),
        Token::Plus,
        Box::new(Exp::Number(6)),
    );
    assert_eq!(
        parser.parse(),
        Ok(Exp::Infix(
            Box::new(left),
            Token::Minus,
            Box::new(Exp::Number(2))
        ))
    );
}

#[test]
fn test_6() {
    let tokens = vec![
        Token::Number(15),
        Token::Plus,
        Token::Number(6),
        Token::Star,
        Token::Number(2),
        Token::EndOfInput,
    ];
    let mut parser = Parser::new(&tokens);
    let right = Exp::Infix(
        Box::new(Exp::Number(6)),
        Token::Star,
        Box::new(Exp::Number(2)),
    );
    assert_eq!(
        parser.parse(),
        Ok(Exp::Infix(
            Box::new(Exp::Number(15)),
            Token::Plus,
            Box::new(right)
        ))
    );
}

#[test]
fn test_prefix() {
    let tokens = vec![Token::Minus, Token::Number(15), Token::EndOfInput];
    let mut parser = Parser::new(&tokens);
    assert_eq!(
        parser.parse(),
        Ok(Exp::Prefix(Token::Minus, Box::new(Exp::Number(15))))
    );
}

#[test]
fn test_prefix_2() {
    let tokens = vec![
        Token::Minus,
        Token::Number(15),
        Token::Minus,
        Token::Number(2),
        Token::EndOfInput,
    ];
    let mut parser = Parser::new(&tokens);
    let left = Exp::Prefix(Token::Minus, Box::new(Exp::Number(15)));
    assert_eq!(
        parser.parse(),
        Ok(Exp::Infix(
            Box::new(left),
            Token::Minus,
            Box::new(Exp::Number(2))
        ))
    );
}

#[test]
fn test_grouped_1() {
    let tokens = vec![
        Token::LeftParen,
        Token::Number(15),
        Token::Plus,
        Token::Number(6),
        Token::RightParen,
        Token::Star,
        Token::Number(2),
        Token::EndOfInput,
    ];
    let mut parser = Parser::new(&tokens);
    let left = Exp::Grouping(Box::new(Exp::Infix(
        Box::new(Exp::Number(15)),
        Token::Plus,
        Box::new(Exp::Number(6)),
    )));
    assert_eq!(
        parser.parse(),
        Ok(Exp::Infix(
            Box::new(left),
            Token::Star,
            Box::new(Exp::Number(2))
        ))
    );
}

#[test]
fn test_grouped_2() {
    let tokens = vec![
        Token::Number(2),
        Token::Star,
        Token::LeftParen,
        Token::Number(15),
        Token::Plus,
        Token::Number(6),
        Token::RightParen,
        Token::EndOfInput,
    ];
    let mut parser = Parser::new(&tokens);
    let right = Exp::Grouping(Box::new(Exp::Infix(
        Box::new(Exp::Number(15)),
        Token::Plus,
        Box::new(Exp::Number(6)),
    )));
    assert_eq!(
        parser.parse(),
        Ok(Exp::Infix(
            Box::new(Exp::Number(2)),
            Token::Star,
            Box::new(right)
        ))
    );
}

#[test]
fn test_suffix_1() {
    let tokens = vec![
        Token::Number(3),
        Token::Bang,
        Token::Star,
        Token::Number(15),
        Token::EndOfInput,
    ];
    let mut parser = Parser::new(&tokens);
    let left = Exp::Suffix(Box::new(Exp::Number(3)), Token::Bang);
    assert_eq!(
        parser.parse(),
        Ok(Exp::Infix(
            Box::new(left),
            Token::Star,
            Box::new(Exp::Number(15))
        ))
    );
}

#[test]
fn test_suffix_2() {
    let tokens = vec![
        Token::Number(3),
        Token::Bang,
        Token::Star,
        Token::Number(15),
        Token::Bang,
        Token::EndOfInput,
    ];
    let mut parser = Parser::new(&tokens);
    let left = Exp::Suffix(Box::new(Exp::Number(3)), Token::Bang);
    let right = Exp::Suffix(Box::new(Exp::Number(15)), Token::Bang);
    assert_eq!(
        parser.parse(),
        Ok(Exp::Infix(Box::new(left), Token::Star, Box::new(right)))
    );
}
