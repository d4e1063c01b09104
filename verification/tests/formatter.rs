use codefmt::brackets::split_clustered_brackets;
use codefmt::css::format_css;
use codefmt::dispatch::get_file_type;
use codefmt::dispatch::format_code;
use codefmt::dispatch::FileType;
use codefmt::dispatch::FormatError;
use codefmt::html::format_html;
use codefmt::jsts::format_js_ts;
use codefmt::spacing::add_operator_spaces;

fn cv(s: &str) -> Vec<char> {
    s.chars().collect()
}

fn sv(v: &Vec<char>) -> String {
    v.iter().collect()
}

fn leading_spaces_per_line(s: &str) -> Vec<usize> {
    s.lines().map(|l| l.chars().take_while(|c| *c == ' ').count()).collect()
}

#[test]
fn css_compact_three_declarations() {
    let out = format_css(&cv("a{color:red;margin:0;padding:0}"), 2, 80);
    assert_eq!(sv(&out), "a {\n  color: red; margin: 0; padding: 0;\n}\n");
}

#[test]
fn css_expanded_four_declarations() {
    let out = format_css(&cv("a{color:red;margin:0;padding:0;border:1px}"), 2, 80);
    assert_eq!(
        sv(&out),
        "a {\n  color: red;\n  margin: 0;\n  padding: 0;\n  border: 1px;\n}\n"
    );
}

#[test]
fn css_expanded_when_line_too_long() {
    let out = format_css(&cv("a{x:1;y:2}"), 2, 10);
    assert_eq!(sv(&out), "a {\n  x: 1;\n  y: 2;\n}\n");
}

#[test]
fn css_unmatched_closers_saturate_at_zero() {
    let out = format_css(&cv("}}}a{x:1}"), 2, 80);
    assert_eq!(sv(&out), "\n}\n\n}\n\n}\na {\n  x: 1;\n}\n");
}

#[test]
fn css_empty_input_single_newline() {
    let out = format_css(&cv(""), 2, 80);
    assert_eq!(sv(&out), "\n");
}

#[test]
fn css_round_trip_keeps_indent_structure() {
    let first = sv(&format_css(&cv("a{color:red;margin:0;padding:0}"), 2, 80));
    let second = sv(&format_css(&cv(first.trim()), 2, 80));
    assert_eq!(
        leading_spaces_per_line(&first),
        leading_spaces_per_line(&second)
    );
    let third = sv(&format_css(&cv(second.trim()), 2, 80));
    assert_eq!(
        leading_spaces_per_line(&second),
        leading_spaces_per_line(&third)
    );
}

#[test]
fn js_function_statement_layout() {
    let out = format_js_ts(&cv("function f(a,b){return a+b;}"), 2, 80);
    assert_eq!(sv(&out), "function f(a,b) {\n return a + b;\n \n }\n");
}

#[test]
fn js_braces_inside_strings_are_not_structural() {
    let out = format_js_ts(&cv("var s='a{b}';"), 2, 80);
    assert_eq!(sv(&out), "var s = 'a {b} ';\n");
}

#[test]
fn js_line_comment_passes_through() {
    let out = format_js_ts(&cv("//x\ny;"), 2, 80);
    assert_eq!(sv(&out), "//x\ny;\n");
}

#[test]
fn js_empty_input_single_newline() {
    let out = format_js_ts(&cv(""), 2, 80);
    assert_eq!(sv(&out), "\n");
}

#[test]
fn html_void_element_keeps_level() {
    let out = format_html(&cv("<img src=\"a.png\"><br>"), 2, 80);
    assert_eq!(sv(&out), "< img src = \"a.png\" >\n < br >\n");
}

#[test]
fn html_open_close_indents_text() {
    let out = format_html(&cv("<div>x</div>"), 2, 80);
    assert_eq!(sv(&out), "< div >\n x < / div >\n");
}

#[test]
fn html_empty_input_single_newline() {
    let out = format_html(&cv(""), 2, 80);
    assert_eq!(sv(&out), "\n");
}

#[test]
fn trailing_newline_on_all_engines() {
    for input in ["<p>a</p>", "a{b:c}", "x=1;y=2;"] {
        for ft in [FileType::Html, FileType::Css, FileType::Js] {
            let out = format_code(&cv(input), ft, 4, 80);
            let s = sv(&out);
            assert!(s.ends_with('\n'));
            assert!(!s.ends_with("\n\n"));
            assert!(!s.ends_with(" \n"));
        }
    }
}

#[test]
fn spacer_inserts_canonical_spacing() {
    assert_eq!(sv(&add_operator_spaces(&cv("a+b"))), "a + b");
    assert_eq!(sv(&add_operator_spaces(&cv("a&&b||c"))), "a && b || c");
    assert_eq!(sv(&add_operator_spaces(&cv("x==y"))), "x == y");
    assert_eq!(sv(&add_operator_spaces(&cv("f(a,b)"))), "f (a, b)");
}

#[test]
fn spacer_idempotent_on_spaced_text() {
    for input in ["a+b", "a&&b||c", "x==y", "f(a,b)", "u <= v; w != z"] {
        let once = add_operator_spaces(&cv(input));
        let twice = add_operator_spaces(&once);
        assert_eq!(sv(&once), sv(&twice));
    }
}

#[test]
fn bracket_splitter_breaks_clusters_of_three() {
    let out = split_clustered_brackets(&cv("((()))"), &cv("  "), 0);
    assert_eq!(sv(&out), "(((\n     ))\n)");
}

#[test]
fn bracket_splitter_reindents_after_newline() {
    let out = split_clustered_brackets(&cv("(a\nb)"), &cv("  "), 0);
    assert_eq!(sv(&out), "(a\n  b)");
}

#[test]
fn file_type_by_extension_case_insensitive() {
    assert_eq!(get_file_type(&cv("a/b/test.HTML")), Ok(FileType::Html));
    assert_eq!(get_file_type(&cv("style.css")), Ok(FileType::Css));
    assert_eq!(get_file_type(&cv("app.js")), Ok(FileType::Js));
    assert_eq!(get_file_type(&cv("mod.TS")), Ok(FileType::Ts));
}

#[test]
fn file_type_missing_extension() {
    assert_eq!(
        get_file_type(&cv("noext")),
        Err(FormatError::MissingExtension)
    );
    assert_eq!(
        get_file_type(&cv("dir.v/file")),
        Err(FormatError::MissingExtension)
    );
    assert_eq!(
        get_file_type(&cv(".gitignore")),
        Err(FormatError::MissingExtension)
    );
}

#[test]
fn file_type_unsupported_extension() {
    assert_eq!(
        get_file_type(&cv("report.doc")),
        Err(FormatError::UnsupportedExtension)
    );
    assert_eq!(
        get_file_type(&cv("trailing.")),
        Err(FormatError::UnsupportedExtension)
    );
}

#[test]
fn js_unmatched_closers_saturate_at_zero() {
    let out = format_js_ts(&cv("}}x;"), 2, 80);
    assert_eq!(sv(&out), "\n}\n} x;\n");
}

#[test]
fn js_round_trip_simple_statement() {
    let first = sv(&format_js_ts(&cv("x=1;"), 2, 80));
    assert_eq!(first, "x = 1;\n");
    let second = sv(&format_js_ts(&cv(first.trim()), 2, 80));
    assert_eq!(first, second);
}

#[test]
fn html_round_trip_plain_text() {
    let first = sv(&format_html(&cv("hello world"), 2, 80));
    assert_eq!(first, "hello world\n");
    let second = sv(&format_html(&cv(first.trim()), 2, 80));
    assert_eq!(first, second);
}

#[test]
fn format_code_js_and_ts_share_engine() {
    let js = format_code(&cv("let x=1;"), FileType::Js, 4, 80);
    let ts = format_code(&cv("let x=1;"), FileType::Ts, 4, 80);
    assert_eq!(sv(&js), sv(&ts));
    assert_eq!(sv(&js), sv(&format_js_ts(&cv("let x=1;"), 4, 80)));
}
