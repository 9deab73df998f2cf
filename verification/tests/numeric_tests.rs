use layer_ui::numeric::{expression_text, is_blank, ExpressionError, NumericKind, MAX_EXPRESSION_BYTES};

#[test]
fn expressions_are_trimmed_and_lose_their_unit() {
    assert_eq!(expression_text("  3*2 ", "").unwrap(), "3*2");
    assert_eq!(expression_text("2^3 px", "px").unwrap(), "2^3");
    assert_eq!(expression_text("2px", "px").unwrap(), "2");
    assert_eq!(expression_text("\t10/5+4\n", "px").unwrap(), "10/5+4");
    assert_eq!(expression_text("50 %", "%").unwrap(), "50");
    assert_eq!(expression_text("px", "px").unwrap(), "");
    assert_eq!(expression_text("sqrt(2)", "×").unwrap(), "sqrt(2)");
}

#[test]
fn untrusted_input_is_refused() {
    for text in ["print(3)", "print", "1+print(2)", "(print)", " print ", "2 px print px"] {
        assert_eq!(expression_text(text, "px"), Err(ExpressionError::NotMath), "{text}");
    }
    for text in ["\"1\"", "'a'", "1+'2'"] {
        assert_eq!(expression_text(text, ""), Err(ExpressionError::NotMath), "{text}");
    }
    for text in ["sprint(3)", "x_print", "print_x", "printf(1)", "éprint"] {
        assert!(expression_text(text, "").is_ok(), "{text}");
    }
    assert_eq!(ExpressionError::NotMath.message(), "Enter a mathematical expression");
}

#[test]
fn long_sources_are_refused_by_bytes() {
    let ok = "1".repeat(MAX_EXPRESSION_BYTES);
    assert!(expression_text(&ok, "").is_ok());
    let long = "1".repeat(MAX_EXPRESSION_BYTES + 1);
    assert_eq!(expression_text(&long, ""), Err(ExpressionError::TooLong));
    let wide = "é".repeat(MAX_EXPRESSION_BYTES / 2 + 1);
    assert_eq!(expression_text(&wide, ""), Err(ExpressionError::TooLong));
    assert_eq!(ExpressionError::TooLong.message(), "Expression is too long");
}

#[test]
fn blank_text_is_a_reset() {
    assert!(is_blank(""));
    assert!(is_blank(" \t\n"));
    assert!(is_blank("\u{3000}\u{a0}"));
    assert!(!is_blank(" 1 "));
    assert_ne!(NumericKind::Number, NumericKind::Slider);
}
