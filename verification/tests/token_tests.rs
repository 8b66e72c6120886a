use dnf::error::DnfError;
use dnf::token::{tokenize, Token};
use dnf::text::text_byte_len;

struct TokenizeTestCase {
    name: &'static str,
    input: &'static str,
    expected: Vec<Token>,
}

#[test]
fn test_tokenize_basic_expressions() {
    let cases = vec![
        TokenizeTestCase {
            name: "simple comparison",
            input: "age > 18",
            expected: vec![
                Token::Identifier("age".into()),
                Token::Gt,
                Token::Number("18".into()),
            ],
        },
        TokenizeTestCase {
            name: "AND conjunction",
            input: "age > 18 AND country == \"US\"",
            expected: vec![
                Token::Identifier("age".into()),
                Token::Gt,
                Token::Number("18".into()),
                Token::And,
                Token::Identifier("country".into()),
                Token::Eq,
                Token::String("US".into()),
            ],
        },
        TokenizeTestCase {
            name: "string with spaces",
            input: r#"name == "John Doe""#,
            expected: vec![
                Token::Identifier("name".into()),
                Token::Eq,
                Token::String("John Doe".into()),
            ],
        },
        TokenizeTestCase {
            name: "escaped quotes",
            input: r#"name == "John \"The Boss\" Doe""#,
            expected: vec![
                Token::Identifier("name".into()),
                Token::Eq,
                Token::String("John \"The Boss\" Doe".into()),
            ],
        },
        TokenizeTestCase {
            name: "boolean value",
            input: "premium == true",
            expected: vec![
                Token::Identifier("premium".into()),
                Token::Eq,
                Token::Boolean(true),
            ],
        },
        TokenizeTestCase {
            name: "parentheses",
            input: "(age > 18)",
            expected: vec![
                Token::LeftParen,
                Token::Identifier("age".into()),
                Token::Gt,
                Token::Number("18".into()),
                Token::RightParen,
            ],
        },
        TokenizeTestCase {
            name: "negative number",
            input: "age > -5",
            expected: vec![
                Token::Identifier("age".into()),
                Token::Gt,
                Token::Number("-5".into()),
            ],
        },
        TokenizeTestCase {
            name: "float number",
            input: "price > 19.99",
            expected: vec![
                Token::Identifier("price".into()),
                Token::Gt,
                Token::Number("19.99".into()),
            ],
        },
        TokenizeTestCase {
            name: "multiword string value",
            input: r#"description == "This is a multi word value""#,
            expected: vec![
                Token::Identifier("description".into()),
                Token::Eq,
                Token::String("This is a multi word value".into()),
            ],
        },
    ];

    for case in cases {
        let tokens = tokenize(case.input, None).unwrap_or_else(|e| {
            panic!(
                "Failed to tokenize '{}' ({}): {:?}",
                case.name, case.input, e
            )
        });
        assert_eq!(
            tokens, case.expected,
            "Mismatch for '{}': {}",
            case.name, case.input
        );
    }
}

#[test]
fn test_tokenize_operators() {
    let cases = vec![
        ("a == b", Token::Eq),
        ("a = b", Token::Eq),
        ("a != b", Token::Ne),
        ("a > b", Token::Gt),
        ("a < b", Token::Lt),
        ("a >= b", Token::Gte),
        ("a <= b", Token::Lte),
    ];

    for (input, expected_op) in cases {
        let tokens = tokenize(input, None).unwrap();
        assert_eq!(tokens[1], expected_op, "Failed for: {}", input);
    }
}

#[test]
fn test_tokenize_string_operators() {
    let cases = vec![
        ("name CONTAINS \"John\"", Token::Contains),
        ("name NOT CONTAINS \"John\"", Token::NotContains),
        ("name STARTS WITH \"John\"", Token::StartsWith),
        ("name ENDS WITH \"Doe\"", Token::EndsWith),
        ("name NOT STARTS WITH \"X\"", Token::NotStartsWith),
        ("name NOT ENDS WITH \"Y\"", Token::NotEndsWith),
    ];

    for (input, expected_op) in cases {
        let tokens = tokenize(input, None).unwrap();
        assert_eq!(tokens[1], expected_op, "Failed for: {}", input);
    }
}

#[test]
fn test_tokenize_between_operators() {
    let cases = vec![
        ("age BETWEEN [18, 65]", Token::Between),
        ("age NOT BETWEEN [0, 17]", Token::NotBetween),
        ("score BETWEEN [60.0, 100.0]", Token::Between),
    ];

    for (input, expected_op) in cases {
        let tokens = tokenize(input, None).unwrap();
        assert_eq!(tokens[1], expected_op, "Failed for: {}", input);
    }
}

#[test]
fn test_tokenize_case_sensitive() {
    // Operators are UPPERCASE, constants are lowercase
    let tokens = tokenize("age > 18 AND premium == true", None).unwrap();
    assert_eq!(tokens[3], Token::And, "AND should be recognized");
    assert_eq!(tokens[6], Token::Boolean(true), "true should be recognized");

    // Lowercase 'and' should be treated as identifier
    let tokens = tokenize("age > 18 and premium == true", None).unwrap();
    assert_eq!(
        tokens[3],
        Token::Identifier("and".into()),
        "lowercase 'and' should be identifier"
    );
    assert_eq!(tokens[6], Token::Boolean(true), "true should still work");

    // Uppercase 'TRUE' should be treated as identifier (constants are lowercase)
    let tokens = tokenize("age > 18 AND premium == TRUE", None).unwrap();
    assert_eq!(tokens[3], Token::And, "AND should be recognized");
    assert_eq!(
        tokens[6],
        Token::Identifier("TRUE".into()),
        "uppercase 'TRUE' should be identifier"
    );

    // Mixed case operators should be treated as identifiers
    let tokens = tokenize("age > 18 AnD premium == true", None).unwrap();
    assert_eq!(
        tokens[3],
        Token::Identifier("AnD".into()),
        "mixed case 'AnD' should be identifier"
    );
}

#[test]
fn test_tokenize_arrays() {
    let cases = vec![
        TokenizeTestCase {
            name: "string array",
            input: r#"status IN ["active", "pending"]"#,
            expected: vec![
                Token::Identifier("status".into()),
                Token::AnyOf,
                Token::LeftBracket,
                Token::String("active".into()),
                Token::Comma,
                Token::String("pending".into()),
                Token::RightBracket,
            ],
        },
        TokenizeTestCase {
            name: "numeric array",
            input: "age IN [18, 21, 25]",
            expected: vec![
                Token::Identifier("age".into()),
                Token::AnyOf,
                Token::LeftBracket,
                Token::Number("18".into()),
                Token::Comma,
                Token::Number("21".into()),
                Token::Comma,
                Token::Number("25".into()),
                Token::RightBracket,
            ],
        },
        TokenizeTestCase {
            name: "NOT IN operator",
            input: r#"status NOT IN ["deleted"]"#,
            expected: vec![
                Token::Identifier("status".into()),
                Token::NotAnyOf,
                Token::LeftBracket,
                Token::String("deleted".into()),
                Token::RightBracket,
            ],
        },
        TokenizeTestCase {
            name: "IN without array",
            input: "status IN values",
            expected: vec![
                Token::Identifier("status".into()),
                Token::AnyOf,
                Token::Identifier("values".into()),
            ],
        },
    ];

    for case in cases {
        let tokens = tokenize(case.input, None).unwrap();
        assert_eq!(
            tokens, case.expected,
            "Mismatch for '{}': {}",
            case.name, case.input
        );
    }
}

#[test]
fn test_tokenize_nested_fields() {
    let cases = vec![
        TokenizeTestCase {
            name: "simple nested field",
            input: r#"user.name.first == "John""#,
            expected: vec![
                Token::Identifier("user.name.first".into()),
                Token::Eq,
                Token::String("John".into()),
            ],
        },
        TokenizeTestCase {
            name: "nested fields with operators",
            input: "person.age > 18 AND person.contact.email CONTAINS \"@\"",
            expected: vec![
                Token::Identifier("person.age".into()),
                Token::Gt,
                Token::Number("18".into()),
                Token::And,
                Token::Identifier("person.contact.email".into()),
                Token::Contains,
                Token::String("@".into()),
            ],
        },
    ];

    for case in cases {
        let tokens = tokenize(case.input, None).unwrap();
        assert_eq!(
            tokens, case.expected,
            "Mismatch for '{}': {}",
            case.name, case.input
        );
    }
}

#[test]
fn test_tokenize_multiword_operators_with_whitespace() {
    let cases = vec![
        ("name NOT    CONTAINS \"value\"", Token::NotContains),
        ("name STARTS    WITH \"value\"", Token::StartsWith),
        ("name ENDS    WITH \"value\"", Token::EndsWith),
    ];

    for (input, expected_op) in cases {
        let tokens = tokenize(input, None).unwrap();
        assert_eq!(tokens[1], expected_op, "Failed for: {}", input);
    }
}

// ==================== Error Cases ====================

struct TokenizeErrorCase {
    name: &'static str,
    input: &'static str,
    expected_contains: &'static str,
}

#[test]
fn test_tokenize_escape_sequences() {
    let cases = vec![
        TokenizeTestCase {
            name: "escaped backslash",
            input: r#"path == "C:\\Users\\John""#,
            expected: vec![
                Token::Identifier("path".into()),
                Token::Eq,
                Token::String("C:\\Users\\John".into()),
            ],
        },
        TokenizeTestCase {
            name: "escaped forward slash",
            input: r#"url == "https:\/\/example.com""#,
            expected: vec![
                Token::Identifier("url".into()),
                Token::Eq,
                Token::String("https://example.com".into()),
            ],
        },
        TokenizeTestCase {
            name: "escaped quotes in string",
            input: r#"quote == "He said \"Hello\"""#,
            expected: vec![
                Token::Identifier("quote".into()),
                Token::Eq,
                Token::String(r#"He said "Hello""#.into()),
            ],
        },
        TokenizeTestCase {
            name: "newline and tab",
            input: "text == \"Line1\\nLine2\\tTabbed\"",
            expected: vec![
                Token::Identifier("text".into()),
                Token::Eq,
                Token::String("Line1\nLine2\tTabbed".into()),
            ],
        },
        TokenizeTestCase {
            name: "mixed escapes",
            input: r#"data == "Path: C:\\test\nURL: https:\/\/site.com""#,
            expected: vec![
                Token::Identifier("data".into()),
                Token::Eq,
                Token::String("Path: C:\\test\nURL: https://site.com".into()),
            ],
        },
    ];

    for case in cases {
        let tokens = tokenize(case.input, None).unwrap_or_else(|e| {
            panic!(
                "Failed to tokenize '{}' ({}): {:?}",
                case.name, case.input, e
            )
        });
        assert_eq!(
            tokens, case.expected,
            "Mismatch for '{}': {}",
            case.name, case.input
        );
    }
}

#[test]
fn test_tokenize_unterminated_strings() {
    let cases = vec![
        ("double quote", r#"name == "unclosed"#),
        ("single quote", "name == 'unclosed string"),
        ("with escape", r#"name == "has escape \n but no end"#),
    ];

    for (name, input) in cases {
        let result = tokenize(input, None);
        assert!(
            matches!(result, Err(DnfError::UnterminatedString { .. })),
            "Expected UnterminatedString for '{}': {}",
            name,
            input
        );
    }
}

#[test]
fn test_tokenize_incomplete_multiword_operators() {
    let cases = vec![
        TokenizeErrorCase {
            name: "NOT at EOF",
            input: "name NOT",
            expected_contains: "CONTAINS",
        },
        TokenizeErrorCase {
            name: "NOT STARTS without WITH",
            input: "name NOT STARTS",
            expected_contains: "WITH",
        },
        TokenizeErrorCase {
            name: "NOT before value",
            input: r#"name NOT "value""#,
            expected_contains: "CONTAINS",
        },
        TokenizeErrorCase {
            name: "STARTS at EOF",
            input: "name STARTS",
            expected_contains: "WITH",
        },
        TokenizeErrorCase {
            name: "STARTS with wrong word",
            input: "name STARTS BY",
            expected_contains: "WITH",
        },
        TokenizeErrorCase {
            name: "ENDS at EOF",
            input: "name ENDS",
            expected_contains: "WITH",
        },
        TokenizeErrorCase {
            name: "ENDS with wrong word",
            input: "name ENDS IN",
            expected_contains: "WITH",
        },
    ];

    for case in cases {
        let result = tokenize(case.input, None);
        assert!(
            matches!(result, Err(DnfError::UnexpectedToken { .. })),
            "Expected UnexpectedToken for '{}': {}",
            case.name,
            case.input
        );

        if let Err(DnfError::UnexpectedToken { expected, .. }) = result {
            assert!(
                expected.contains(case.expected_contains),
                "Error for '{}' should contain '{}', got: {}",
                case.name,
                case.expected_contains,
                expected
            );
        }
    }
}


#[test]
fn test_text_byte_len_counts_utf8_bytes() {
    assert_eq!(text_byte_len(""), 0);
    assert_eq!(text_byte_len("a\u{e9}\u{20ac}\u{1f600}"), 1 + 2 + 3 + 4);
    assert_eq!(text_byte_len("age > 18"), 8);
}
