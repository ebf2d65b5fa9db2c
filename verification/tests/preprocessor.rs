use preproc::engine::{LineAction, Preprocessor, PreprocessorError};

/// Builds an inclusion directive line around the given remainder.
fn inc(rest: &str) -> String {
    let mut s = String::from("#in");
    s.push_str("clude");
    s.push_str(rest);
    s
}

fn run_on(input: &str, existing: Vec<String>) -> Result<(Preprocessor, String), PreprocessorError> {
    let mut p = Preprocessor::new(String::from(input));
    match p.run(&existing) {
        Ok(out) => Ok((p, out)),
        Err(e) => Err(e),
    }
}

#[test]
fn scenario_define_substitution() {
    let (p, out) = run_on("#define MAX 100\nint x = MAX;", Vec::new()).unwrap();
    assert_eq!(out, "int x = 100;");
    let bound = p.substitution_of("MAX").unwrap();
    assert_eq!(bound, "100");
    assert!(!p.is_defined("MAX"));
}

#[test]
fn scenario_define_flag_body_unchanged() {
    let (p, out) = run_on("#define DEBUG\nifdef-unused line", Vec::new()).unwrap();
    assert!(p.is_defined("DEBUG"));
    assert_eq!(out, "ifdef-unused line");
    assert!(p.substitution_of("DEBUG").is_none());
}

#[test]
fn scenario_existing_path_recorded() {
    let input = inc(" \"existing.h\"");
    let ex = vec![String::from("existing.h")];
    let (p, out) = run_on(&input, ex).unwrap();
    assert!(p.has_recorded("existing.h"));
    assert_eq!(out, "");
}

#[test]
fn scenario_missing_path_aborts() {
    let mut input = inc(" \"missing.h\"");
    input.push_str("\n#define LATER 1");
    let mut p = Preprocessor::new(input);
    let r = p.run(&Vec::new());
    assert!(matches!(r, Err(PreprocessorError::InvalidInclusion)));
    assert!(p.substitution_of("LATER").is_none());
}

#[test]
fn scenario_unknown_directive_aborts() {
    let mut p = Preprocessor::new(String::from("#frobnicate"));
    let r = p.run(&Vec::new());
    assert!(matches!(r, Err(PreprocessorError::UnrecognizedDirective)));
}

#[test]
fn boundary_whole_token_match_only() {
    let (_, out) = run_on("#define MAX 100\nMAXIMUM = MAX + MAX_", Vec::new()).unwrap();
    assert_eq!(out, "MAXIMUM = 100 + MAX_");
}

#[test]
fn flag_then_substitution_single_category() {
    let (p, _) = run_on("#define N\n#define N 42\n", Vec::new()).unwrap();
    assert!(!p.is_defined("N"));
    let bound = p.substitution_of("N").unwrap();
    assert_eq!(bound, "42");
}

#[test]
fn substitution_then_flag_single_category() {
    let (p, _) = run_on("#define N 42\n#define N\n", Vec::new()).unwrap();
    assert!(p.is_defined("N"));
    assert!(p.substitution_of("N").is_none());
}

#[test]
fn undef_removes_flag_only() {
    let (p, _) = run_on("#define A\n#define B 2\n#undef A\n#undef B\n", Vec::new()).unwrap();
    assert!(!p.is_defined("A"));
    let bound = p.substitution_of("B").unwrap();
    assert_eq!(bound, "2");
}

#[test]
fn region_markers_are_silent() {
    let (p, out) = run_on("#region\nint x;\n#endregion\n", Vec::new()).unwrap();
    assert_eq!(out, "int x;\n");
    assert!(!p.is_defined("region"));
    assert!(p.substitution_of("region").is_none());
}

#[test]
fn round_trip_pure_body() {
    let input = "int a;\n\nchar *s = \"text\";\nreturn a;\n";
    let (_, out) = run_on(input, Vec::new()).unwrap();
    assert_eq!(out, input);
}

#[test]
fn round_trip_no_trailing_newline() {
    let input = "one\ntwo";
    let (_, out) = run_on(input, Vec::new()).unwrap();
    assert_eq!(out, input);
}

#[test]
fn empty_input_gives_empty_output() {
    let (_, out) = run_on("", Vec::new()).unwrap();
    assert_eq!(out, "");
}

#[test]
fn marker_only_line_is_empty_directive() {
    let mut p = Preprocessor::new(String::from("#"));
    let r = p.run(&Vec::new());
    assert!(matches!(r, Err(PreprocessorError::EmptyDirective)));
}

#[test]
fn define_without_name_is_empty_directive() {
    let mut p = Preprocessor::new(String::from("#define"));
    let r = p.run(&Vec::new());
    assert!(matches!(r, Err(PreprocessorError::EmptyDirective)));
}

#[test]
fn undef_without_name_is_empty_directive() {
    let mut p = Preprocessor::new(String::from("#undef\n"));
    let r = p.run(&Vec::new());
    assert!(matches!(r, Err(PreprocessorError::EmptyDirective)));
}

#[test]
fn replacement_tokens_joined_with_single_spaces() {
    let (p, _) = run_on("#define GREET   hello   there   world\n", Vec::new()).unwrap();
    let bound = p.substitution_of("GREET").unwrap();
    assert_eq!(bound, "hello there world");
}

#[test]
fn several_macros_on_one_line() {
    let (_, out) = run_on("#define A 1\n#define B 2\nA+B=A B;", Vec::new()).unwrap();
    assert_eq!(out, "1+2=1 2;");
}

#[test]
fn replacement_text_not_rescanned() {
    let (_, out) = run_on("#define A B\n#define B wrong\nA", Vec::new()).unwrap();
    assert_eq!(out, "B");
}

#[test]
fn later_definition_wins() {
    let (_, out) = run_on("#define A old\n#define A new\nA", Vec::new()).unwrap();
    assert_eq!(out, "new");
}

#[test]
fn definition_visible_only_after_its_line() {
    let (_, out) = run_on("A\n#define A 1\nA", Vec::new()).unwrap();
    assert_eq!(out, "A\n1");
}

#[test]
fn bracketed_path_delimiters_stripped() {
    let input = inc(" <stdio.h>\n");
    let ex = vec![String::from("stdio.h")];
    let (p, out) = run_on(&input, ex).unwrap();
    assert!(p.has_recorded("stdio.h"));
    assert_eq!(out, "");
}

#[test]
fn inclusion_without_path_is_empty_directive() {
    let mut p = Preprocessor::new(inc("\n"));
    let r = p.run(&Vec::new());
    assert!(matches!(r, Err(PreprocessorError::EmptyDirective)));
}

#[test]
fn one_character_path_token_is_invalid() {
    let mut p = Preprocessor::new(inc(" x"));
    let r = p.run(&Vec::new());
    assert!(matches!(r, Err(PreprocessorError::InvalidInclusion)));
}

#[test]
fn indented_marker_is_body_text() {
    let (p, out) = run_on("  #define X 1\n", Vec::new()).unwrap();
    assert_eq!(out, "  #define X 1\n");
    assert!(p.substitution_of("X").is_none());
}

#[test]
fn process_define_direct_flag() {
    let mut p = Preprocessor::new(String::new());
    p.process_define(vec!["#define", "FLAG"]).unwrap();
    assert!(p.is_defined("FLAG"));
    assert!(p.substitution_of("FLAG").is_none());
}

#[test]
fn process_define_direct_substitution() {
    let mut p = Preprocessor::new(String::new());
    p.process_define(vec!["#define", "PI", "3", "14"]).unwrap();
    let bound = p.substitution_of("PI").unwrap();
    assert_eq!(bound, "3 14");
}

#[test]
fn process_define_short_token_list() {
    let mut p = Preprocessor::new(String::new());
    let r = p.process_define(vec!["#define"]);
    assert!(matches!(r, Err(PreprocessorError::EmptyDirective)));
    let r = p.process_define(Vec::new());
    assert!(matches!(r, Err(PreprocessorError::EmptyDirective)));
}

#[test]
fn process_undef_direct() {
    let mut p = Preprocessor::new(String::new());
    p.process_define(vec!["#define", "A"]).unwrap();
    p.process_undef(vec!["#undef", "A"]).unwrap();
    assert!(!p.is_defined("A"));
    let r = p.process_undef(vec!["#undef"]);
    assert!(matches!(r, Err(PreprocessorError::EmptyDirective)));
}

#[test]
fn process_line_actions() {
    let mut p = Preprocessor::new(String::new());
    let a = p.process_line("body text").unwrap();
    assert!(matches!(a, LineAction::Emit(ref s) if s == "body text"));
    let a = p.process_line("#define X 9").unwrap();
    assert!(matches!(a, LineAction::Consumed));
    let line = inc(" \"a.h\"");
    let a = p.process_line(&line).unwrap();
    match a {
        LineAction::CheckPath(path) => {
            assert_eq!(path, "a.h");
            p.resolve_inclusion(path, true).unwrap();
        }
        _ => panic!("expected a path check"),
    }
    assert!(p.has_recorded("a.h"));
}

#[test]
fn resolve_inclusion_missing_fails() {
    let mut p = Preprocessor::new(String::new());
    let r = p.resolve_inclusion(String::from("gone.h"), false);
    assert!(matches!(r, Err(PreprocessorError::InvalidInclusion)));
    assert!(!p.has_recorded("gone.h"));
}

#[test]
fn apply_substitutions_directly() {
    let mut p = Preprocessor::new(String::new());
    p.process_define(vec!["#define", "MAX", "100"]).unwrap();
    assert_eq!(p.apply_substitutions("x = MAX; MAXIMUM"), "x = 100; MAXIMUM");
}

#[test]
fn error_messages() {
    assert_eq!(
        PreprocessorError::EmptyDirective.message(),
        "Empty directive encountered!"
    );
    assert_eq!(
        PreprocessorError::InvalidInclusion.message(),
        "Tried to read a non-existant file!"
    );
    assert_eq!(
        PreprocessorError::UnrecognizedDirective.message(),
        "Not supported directive found!"
    );
}

#[test]
fn directive_keeps_no_newline_in_output() {
    let (_, out) = run_on("a\n#define X 1\nb X", Vec::new()).unwrap();
    assert_eq!(out, "a\nb 1");
}

#[test]
fn underscore_is_a_word_character() {
    let (_, out) = run_on("#define VAL 7\nMY_VAL VAL_2 VAL", Vec::new()).unwrap();
    assert_eq!(out, "MY_VAL VAL_2 7");
}
