use lexer::{tokenize, Token, TokenType};

#[test]
fn should_tokenize_x_equals_42() {
    let expected_tokens = vec![
        Token {
            kind: TokenType::Variable,
            value: "x".to_string(),
        },
        Token {
            kind: TokenType::Equals,
            value: "=".to_string(),
        },
        Token {
            kind: TokenType::Number,
            value: "42".to_string(),
        },
    ];
    let actual_tokens = tokenize("x = 42");

    assert_eq!(actual_tokens, expected_tokens)
}

#[test]
fn should_tokenize_x_equals_43() {
    let expected_tokens = vec![
        Token {
            kind: TokenType::Variable,
            value: "x".to_string(),
        },
        Token {
            kind: TokenType::Equals,
            value: "=".to_string(),
        },
        Token {
            kind: TokenType::Number,
            value: "43".to_string(),
        },
    ];
    let actual_tokens = tokenize("x = 43");

    assert_eq!(actual_tokens, expected_tokens)
}

#[test]
fn should_tokenize_y_equals_42() {
    let expected_tokens = vec![
        Token {
            kind: TokenType::Variable,
            value: "y".to_string(),
        },
        Token {
            kind: TokenType::Equals,
            value: "=".to_string(),
        },
        Token {
            kind: TokenType::Number,
            value: "42".to_string(),
        },
    ];
    let actual_tokens = tokenize("y = 42");

    assert_eq!(actual_tokens, expected_tokens)
}

#[test]
fn should_tokenize_xy_equals_42() {
    let expected_tokens = vec![
        Token {
            kind: TokenType::Variable,
            value: "xy".to_string(),
        },
        Token {
            kind: TokenType::Equals,
            value: "=".to_string(),
        },
        Token {
            kind: TokenType::Number,
            value: "42".to_string(),
        },
    ];
    let actual_tokens = tokenize("xy = 42");

    assert_eq!(actual_tokens, expected_tokens)
}

#[test]
fn should_tokenize_x_plus_y_equals_42() {
    let expected_tokens = vec![
        Token {
            kind: TokenType::Variable,
            value: "x".to_string(),
        },
        Token {
            kind: TokenType::BinaryOperation,
            value: "+".to_string(),
        },
        Token {
            kind: TokenType::Variable,
            value: "y".to_string(),
        },
        Token {
            kind: TokenType::Equals,
            value: "=".to_string(),
        },
        Token {
            kind: TokenType::Number,
            value: "42".to_string(),
        },
    ];
    let actual_tokens = tokenize("x + y = 42");

    assert_eq!(actual_tokens, expected_tokens)
}

#[test]
fn should_tokenize_x_minus_y_equals_42() {
    let expected_tokens = vec![
        Token {
            kind: TokenType::Variable,
            value: "x".to_string(),
        },
        Token {
            kind: TokenType::BinaryOperation,
            value: "-".to_string(),
        },
        Token {
            kind: TokenType::Variable,
            value: "y".to_string(),
        },
        Token {
            kind: TokenType::Equals,
            value: "=".to_string(),
        },
        Token {
            kind: TokenType::Number,
            value: "42".to_string(),
        },
    ];
    let actual_tokens = tokenize("x - y = 42");

    assert_eq!(actual_tokens, expected_tokens)
}

#[test]
fn should_tokenize_x_times_y_equals_42() {
    let expected_tokens = vec![
        Token {
            kind: TokenType::Variable,
            value: "x".to_string(),
        },
        Token {
            kind: TokenType::BinaryOperation,
            value: "*".to_string(),
        },
        Token {
            kind: TokenType::Variable,
            value: "y".to_string(),
        },
        Token {
            kind: TokenType::Equals,
            value: "=".to_string(),
        },
        Token {
            kind: TokenType::Number,
            value: "42".to_string(),
        },
    ];
    let actual_tokens = tokenize("x * y = 42");

    assert_eq!(actual_tokens, expected_tokens)
}

#[test]
fn should_tokenize_x_divided_by_y_equals_42() {
    let expected_tokens = vec![
        Token {
            kind: TokenType::Variable,
            value: "x".to_string(),
        },
        Token {
            kind: TokenType::BinaryOperation,
            value: "/".to_string(),
        },
        Token {
            kind: TokenType::Variable,
            value: "y".to_string(),
        },
        Token {
            kind: TokenType::Equals,
            value: "=".to_string(),
        },
        Token {
            kind: TokenType::Number,
            value: "42".to_string(),
        },
    ];
    let actual_tokens = tokenize("x / y = 42");

    assert_eq!(actual_tokens, expected_tokens)
}

#[test]
fn should_tokenize_x_modulo_y_equals_42() {
    let expected_tokens = vec![
        Token {
            kind: TokenType::Variable,
            value: "x".to_string(),
        },
        Token {
            kind: TokenType::BinaryOperation,
            value: "%".to_string(),
        },
        Token {
            kind: TokenType::Variable,
            value: "y".to_string(),
        },
        Token {
            kind: TokenType::Equals,
            value: "=".to_string(),
        },
        Token {
            kind: TokenType::Number,
            value: "42".to_string(),
        },
    ];
    let actual_tokens = tokenize("x % y = 42");

    assert_eq!(actual_tokens, expected_tokens)
}

#[test]
fn should_tokenize_x_power_y_equals_42() {
    let expected_tokens = vec![
        Token {
            kind: TokenType::Variable,
            value: "x".to_string(),
        },
        Token {
            kind: TokenType::BinaryOperation,
            value: "**".to_string(),
        },
        Token {
            kind: TokenType::Variable,
            value: "y".to_string(),
        },
        Token {
            kind: TokenType::Equals,
            value: "=".to_string(),
        },
        Token {
            kind: TokenType::Number,
            value: "42".to_string(),
        },
    ];
    let actual_tokens = tokenize("x ** y = 42");

    assert_eq!(actual_tokens, expected_tokens)
}

#[test]
fn should_tokenize_x_minus_y_equals_42_without_spaces() {
    let expected_tokens = vec![
        Token {
            kind: TokenType::Variable,
            value: "x".to_string(),
        },
        Token {
            kind: TokenType::BinaryOperation,
            value: "-".to_string(),
        },
        Token {
            kind: TokenType::Variable,
            value: "y".to_string(),
        },
        Token {
            kind: TokenType::Equals,
            value: "=".to_string(),
        },
        Token {
            kind: TokenType::Number,
            value: "42".to_string(),
        },
    ];
    let actual_tokens = tokenize("x-y=42");

    assert_eq!(actual_tokens, expected_tokens)
}

#[test]
fn should_tokenize_price1_equals_42() {
    let expected_tokens = vec![
        Token {
            kind: TokenType::Variable,
            value: "price1".to_string(),
        },
        Token {
            kind: TokenType::Equals,
            value: "=".to_string(),
        },
        Token {
            kind: TokenType::Number,
            value: "42".to_string(),
        },
    ];
    let actual_tokens = tokenize("price1 = 42");

    assert_eq!(actual_tokens, expected_tokens)
}
