use tesseract::casing::{classify, convert, find_casing, parse, tokenize, Casing, CasingError};
use tesseract::casing::CasingParseError;
use tesseract::casing::{
    combine_to_one, get_lower_case_chars, get_upper_case_chars, is_lowercase, is_uppercase,
    word_starting_with_upper,
};

#[test]
fn should_convert_pascal_to_lower_snake() {
    let input = "ExampleValue";
    let expected = "example_value";

    let actual = parse(input).unwrap();

    assert_eq!(expected, actual)
}

#[test]
fn classifies_pascal_and_tokenizes_words() {
    assert_eq!(classify("ExampleValue"), Ok(Casing::PascalCase));

    let words = tokenize("ExampleValue", Casing::PascalCase).unwrap();
    let texts: Vec<&str> = words.iter().map(|w| w.text.as_str()).collect();
    assert_eq!(texts, vec!["Example", "Value"]);
    assert_eq!(words[0].start, 0);
    assert_eq!(words[1].start, 7);

    let joined = convert(&words, Casing::SnakeCase);
    assert_eq!(joined, "example_value");
}

#[test]
fn classify_rejects_the_empty_string() {
    assert_eq!(classify(""), Err(CasingError::NoMatch));
}

#[test]
fn classifies_the_underscore_styles() {
    assert_eq!(classify("example_value"), Ok(Casing::SnakeCase));
    assert_eq!(classify("EXAMPLE_VALUE"), Ok(Casing::ScreamingSnakeCase));
    assert_eq!(classify("Example_Value"), Ok(Casing::TitleSnakeCase));
    assert_eq!(classify("example"), Ok(Casing::LowerCase));
}

#[test]
fn classify_rejects_unmatched_shapes() {
    assert_eq!(classify("_example"), Err(CasingError::NoMatch));
    assert_eq!(classify("example_"), Err(CasingError::NoMatch));
    assert_eq!(classify("a__b"), Err(CasingError::NoMatch));
    assert_eq!(classify("example9"), Err(CasingError::NoMatch));
    assert_eq!(classify("EXAMPLE"), Err(CasingError::NoMatch));
    assert_eq!(classify("A"), Err(CasingError::NoMatch));
    assert_eq!(classify("aB"), Err(CasingError::NoMatch));
}

#[test]
fn tokenize_is_more_liberal_than_classification() {
    let words = tokenize("EXAMPLE", Casing::PascalCase).unwrap();
    let texts: Vec<&str> = words.iter().map(|w| w.text.as_str()).collect();
    assert_eq!(texts, vec!["E", "X", "A", "M", "P", "L", "E"]);
    assert_eq!(convert(&words, Casing::PascalCase), "EXAMPLE");

    let single = tokenize("example", Casing::SnakeCase).unwrap();
    assert_eq!(single.len(), 1);
    assert_eq!(single[0].text, "example");
}

#[test]
fn snake_words_record_their_positions() {
    let words = tokenize("example_value", Casing::SnakeCase).unwrap();
    assert_eq!(words[0].start, 0);
    assert_eq!(words[1].start, 8);
}

#[test]
fn round_trip_restores_classified_identifiers() {
    for s in ["ExampleValue", "example_value", "EXAMPLE_VALUE", "Example_Value", "example", "Ab"] {
        let style = classify(s).unwrap();
        let words = tokenize(s, style).unwrap();
        assert_eq!(convert(&words, style), s);
    }
}

#[test]
fn classification_is_stable() {
    let first = classify("ExampleValue");
    let second = classify("ExampleValue");
    assert_eq!(first, second);
}

#[test]
fn tokenize_reports_leftover_characters() {
    assert_eq!(
        tokenize("Example", Casing::SnakeCase).unwrap_err(),
        CasingError::TokenizeMismatch
    );
    assert_eq!(
        tokenize("exampleX", Casing::LowerCase).unwrap_err(),
        CasingError::TokenizeMismatch
    );
    assert_eq!(
        tokenize("", Casing::PascalCase).unwrap_err(),
        CasingError::TokenizeMismatch
    );
}

#[test]
fn casing_parse_converts_each_style_to_lower_snake() {
    assert_eq!(Casing::parse_pascal("ExampleValue").unwrap(), "example_value");
    assert_eq!(Casing::parse_snake("example_value").unwrap(), "example_value");
    assert_eq!(Casing::parse_title_snake("Example_Value").unwrap(), "example_value");
    assert_eq!(
        Casing::parse_screaming_snake("EXAMPLE_VALUE").unwrap(),
        "example_value"
    );
    assert_eq!(Casing::parse_lower("example").unwrap(), "example");
    assert_eq!(
        Casing::SnakeCase.parse("other_words").unwrap(),
        "other_words"
    );
    assert_eq!(
        Casing::parse_snake("Example").unwrap_err(),
        CasingError::TokenizeMismatch
    );
}

#[test]
fn convert_reaches_every_target_style() {
    let words = tokenize("example_value", Casing::SnakeCase).unwrap();
    assert_eq!(convert(&words, Casing::PascalCase), "ExampleValue");
    assert_eq!(convert(&words, Casing::TitleSnakeCase), "Example_Value");
    assert_eq!(convert(&words, Casing::ScreamingSnakeCase), "EXAMPLE_VALUE");
    assert_eq!(convert(&words, Casing::LowerCase), "examplevalue");
}

#[test]
fn find_casing_reports_the_failed_string() {
    assert_eq!(find_casing("example_value").unwrap(), Casing::SnakeCase);
    let err = find_casing("9lives").unwrap_err();
    assert_eq!(err.failed_str, "9lives");
    assert_eq!(
        err.message(),
        "Could not determine case for string 9lives"
    );
    let direct = CasingParseError::new("bad");
    assert_eq!(direct.failed_str, "bad");
}

#[test]
fn helper_functions_follow_their_character_rules() {
    assert!(is_uppercase('A') && !is_uppercase('a') && !is_uppercase('_'));
    assert!(is_lowercase('z') && !is_lowercase('Z') && !is_lowercase('9'));

    assert_eq!(combine_to_one(("Exam", "ple")), "Example");

    assert_eq!(get_upper_case_chars("ExampleValue"), vec![(0, 'E'), (7, 'V')]);
    assert_eq!(
        get_lower_case_chars("aXbY"),
        vec![(0, 'a'), (2, 'b')]
    );

    assert_eq!(word_starting_with_upper("ExampleValue", 0), 7);
    assert_eq!(word_starting_with_upper("ExampleValue", 7), 12);
}
