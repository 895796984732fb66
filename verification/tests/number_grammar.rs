use nom::number::complete::recognize_float;
use solver::equation::grammar::ParseError;
use solver::equation::parser::parse;
use solver::equation::syntax::{Expr, Span};

const SAMPLES: [&str; 24] = [
    "0", "42", "-5.0", "+3", "3.", ".5", "-.5", "1e3", "1E-3", "2.5e+10", "1e", "1e+", "2.E",
    ".e1", ".", "-", "+.", "..5", "1..2", "7.25", "12.5e3.1", "00.000", "-0", "9e-",
];

#[test]
fn numbers_are_read_as_nom_recognizes_floats() {
    for text in SAMPLES {
        let expected = recognize_float::<&str, nom::error::Error<&str>>(text);
        let actual = parse(text);
        match expected {
            Ok(("", recognized)) => {
                assert_eq!(
                    actual,
                    Ok(Expr::Constant(Span { start: 0, end: recognized.len() })),
                    "text {:?}",
                    text
                );
            }
            Ok((_, recognized)) => {
                assert_eq!(
                    actual,
                    Err(ParseError::Unparsed {
                        remaining: Span { start: recognized.len(), end: text.len() }
                    }),
                    "text {:?}",
                    text
                );
            }
            Err(_) => {
                assert_eq!(actual, Err(ParseError::Syntax), "text {:?}", text);
            }
        }
    }
}
