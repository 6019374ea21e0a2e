use stubgen::programming_language::{ProgrammingLanguage, VariableNameFormat as PlFormat};
use stubgen::stub::language::{find_language, is_uppercase_string, Language, TypeTokens, VariableNameFormat};

fn no_tokens() -> TypeTokens {
    TypeTokens { int: None, float: None, long: None, bool: None, word: None, string: None }
}

fn lang(format: VariableNameFormat, allow_upper: Option<bool>, keywords: Vec<&str>) -> Language {
    Language {
        name: String::from("python"),
        variable_format: format,
        allow_uppercase_vars: allow_upper,
        source_file_ext: String::from("py"),
        type_tokens: no_tokens(),
        keywords: keywords.into_iter().map(String::from).collect(),
        aliases: None,
    }
}

#[test]
fn snake_case_inserts_boundaries() {
    assert_eq!(VariableNameFormat::SnakeCase.convert("numRows"), "num_rows");
    assert_eq!(VariableNameFormat::SnakeCase.convert("aB"), "a_b");
    assert_eq!(VariableNameFormat::SnakeCase.convert("already_snake"), "already_snake");
    assert_eq!(VariableNameFormat::SnakeCase.convert("aBC"), "a_bc");
    assert_eq!(VariableNameFormat::SnakeCase.convert(""), "");
}

#[test]
fn pascal_case_degrades_acronym_runs() {
    assert_eq!(VariableNameFormat::PascalCase.convert("HTTPServer"), "HttpServer");
    assert_eq!(VariableNameFormat::PascalCase.convert("numRows"), "NumRows");
    assert_eq!(VariableNameFormat::PascalCase.convert("aBC"), "ABc");
}

#[test]
fn camel_case_lowers_first_character() {
    assert_eq!(VariableNameFormat::CamelCase.convert("HTTPServer"), "httpServer");
    assert_eq!(VariableNameFormat::CamelCase.convert("NumRows"), "numRows");
    assert_eq!(VariableNameFormat::CamelCase.convert("numRows"), "numRows");
}

#[test]
fn casing_round_trip_recovers_words() {
    let converted = VariableNameFormat::SnakeCase.convert("numRowsLeft");
    let words: Vec<&str> = converted.split('_').collect();
    assert_eq!(words, vec!["num", "rows", "left"]);
}

#[test]
fn conversion_is_idempotent() {
    for format in [
        VariableNameFormat::SnakeCase,
        VariableNameFormat::CamelCase,
        VariableNameFormat::PascalCase,
    ] {
        for input in ["numRowsHTTP", "already_snake", "Mixed1Case2"] {
            let once = format.convert(input);
            assert_eq!(format.convert(&once), once);
        }
    }
}

#[test]
fn uppercase_identifier_passes_through() {
    let l = lang(VariableNameFormat::SnakeCase, None, vec![]);
    assert_eq!(l.transform_variable_name("URL"), "URL");
    let l = lang(VariableNameFormat::PascalCase, Some(true), vec![]);
    assert_eq!(l.transform_variable_name("URL"), "URL");
}

#[test]
fn uppercase_identifier_lowered_when_disallowed() {
    let l = lang(VariableNameFormat::SnakeCase, Some(false), vec![]);
    assert_eq!(l.transform_variable_name("URL"), "url");
    let l = lang(VariableNameFormat::CamelCase, Some(false), vec![]);
    assert_eq!(l.transform_variable_name("ABC"), "abc");
}

#[test]
fn keywords_gain_a_leading_underscore() {
    let l = lang(VariableNameFormat::SnakeCase, None, vec!["if", "for"]);
    assert_eq!(l.transform_variable_name("if"), "_if");
    assert_eq!(l.escape_keywords(String::from("for")), "_for");
    assert_eq!(l.escape_keywords(String::from("count")), "count");
}

#[test]
fn keyword_escaping_applies_after_conversion() {
    let l = lang(VariableNameFormat::SnakeCase, None, vec!["my_var"]);
    assert_eq!(l.transform_variable_name("myVar"), "_my_var");
}

#[test]
fn uppercase_string_test_is_letters_only() {
    assert!(is_uppercase_string("ABC"));
    assert!(!is_uppercase_string("A1"));
    assert!(!is_uppercase_string("Abc"));
}

#[test]
fn template_globs() {
    let pl = ProgrammingLanguage {
        name: String::from("python"),
        variable_format: PlFormat::SnakeCase,
        source_file_ext: String::from("py"),
    };
    assert_eq!(pl.template_glob(), "config/stub_templates/python/*.py");
    let l = lang(VariableNameFormat::SnakeCase, None, vec![]);
    assert_eq!(l.template_glob(), "config/stub_templates/python/*.py.jinja");
}

#[test]
fn languages_are_found_by_name_before_alias() {
    let mut first = lang(VariableNameFormat::SnakeCase, None, vec![]);
    first.name = String::from("python");
    first.aliases = Some(vec![String::from("py"), String::from("python3")]);
    let mut second = lang(VariableNameFormat::CamelCase, None, vec![]);
    second.name = String::from("javascript");
    second.aliases = Some(vec![String::from("js"), String::from("python")]);
    let langs = vec![first, second];
    assert_eq!(find_language("python", &langs), Some(0));
    assert_eq!(find_language("js", &langs), Some(1));
    assert_eq!(find_language("PYTHON3", &langs), Some(0));
    assert_eq!(find_language("ruby", &langs), None);
}
