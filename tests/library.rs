use typst_server::compiler::Typst;
use typst_server::diagnostics::{get_error_message, line_number, push_diagnostic, Diagnostic};
use typst_server::response::{
    compile_response, hello_get, hello_post, missing_template, text_response, traverses,
    unreadable_template, ContentType,
};
use typst_server::scope::{bind, make_scope};
use typst_server::value::{convert_number, json_to_typst, JsonNumber, JsonValue, TypstValue};

fn s(x: &str) -> String {
    String::from(x)
}

fn lookup<'a>(scope: &'a [(String, TypstValue)], key: &str) -> Option<&'a TypstValue> {
    scope.iter().rev().find(|(k, _)| k == key).map(|(_, v)| v)
}

fn compiled_scope(t: Typst) -> Vec<(String, TypstValue)> {
    match t.compile() {
        Ok(job) => job.scope,
        Err(e) => panic!("unexpected error: {}", e),
    }
}

#[test]
fn text_response_holds_message_bytes() {
    let r = text_response(418, "teapot");
    assert_eq!(r.status, 418);
    assert_eq!(r.content_type, ContentType::Text);
    assert_eq!(r.body, b"teapot".to_vec());
}

#[test]
fn get_without_template_is_bad_request() {
    let r = hello_get(None).err().unwrap();
    assert_eq!(r.status, 400);
    assert_eq!(r.body, b"Must specify a template.".to_vec());
}

#[test]
fn traversal_is_not_acceptable() {
    let r = hello_post(Some(s("../secret")), s("{}")).err().unwrap();
    assert_eq!(r.status, 406);
    assert_eq!(r.body, b"Template name cannot traverse the file tree.".to_vec());
    assert!(traverses("a/..b"));
    assert!(!traverses("a.b.c"));
    assert!(!traverses(""));
}

#[test]
fn get_loads_template_with_empty_object() {
    let load = hello_get(Some(s("invoice"))).ok().unwrap();
    assert_eq!(load.path, "templates/invoice.typ");
    assert_eq!(load.post, "{}");
}

#[test]
fn post_loads_template_with_body() {
    let load = hello_post(Some(s("letter")), s("{\"x\":1}")).ok().unwrap();
    assert_eq!(load.path, "templates/letter.typ");
    assert_eq!(load.post, "{\"x\":1}");
}

#[test]
fn template_read_failures_are_not_found() {
    assert_eq!(missing_template().status, 404);
    assert_eq!(missing_template().body, b"Could not locate template.".to_vec());
    assert_eq!(unreadable_template().status, 404);
    assert_eq!(unreadable_template().body, b"Could not read template.".to_vec());
}

#[test]
fn compile_outcomes_map_to_responses() {
    let ok = compile_response(Ok(b"%PDF-1.7".to_vec()));
    assert_eq!(ok.status, 200);
    assert_eq!(ok.content_type, ContentType::Pdf);
    assert_eq!(ok.body, b"%PDF-1.7".to_vec());
    let err = compile_response(Err(s("boom")));
    assert_eq!(err.status, 500);
    assert_eq!(err.content_type, ContentType::Text);
    assert_eq!(err.body, b"boom".to_vec());
}

#[test]
fn line_number_counts_preceding_newlines() {
    let body = b"a\nb\nc";
    assert_eq!(line_number(body, 0), 1);
    assert_eq!(line_number(body, 2), 2);
    assert_eq!(line_number(body, 4), 3);
    assert_eq!(line_number(b"\n\n\n\n\n\n\n\n\n\n\nx", 11), 12);
}

#[test]
fn error_message_shows_line_and_snippet() {
    let body = "hello\nwor ld\n";
    let errors = vec![
        Diagnostic { message: s("unknown variable"), span: Some((8, 10)) },
        Diagnostic { message: s("plain"), span: None },
    ];
    let msg = get_error_message(body, &errors);
    assert_eq!(
        String::from_utf8(msg).unwrap(),
        "unknown variableTypst error on line 2: \nwor ld\nplain"
    );
}

#[test]
fn error_message_on_first_line() {
    let body = "#let x = \n";
    let errors = vec![Diagnostic { message: s("expected expression"), span: Some((0, 4)) }];
    let msg = get_error_message(body, &errors);
    assert_eq!(String::from_utf8(msg).unwrap(), "expected expressionTypst error on line 1: \n#let x = ");
}

#[test]
fn error_message_of_no_diagnostics_is_empty() {
    assert!(get_error_message("abc", &vec![]).is_empty());
}

#[test]
fn undecodable_snippet_is_left_out() {
    let body: &[u8] = &[b'a', b'\n', 0xff, 0xfe, b'\n'];
    let mut out = Vec::new();
    push_diagnostic(&mut out, "bad", Some((2, 3)), body, false);
    assert_eq!(String::from_utf8(out).unwrap(), "badTypst error on line 2: ");
    let mut out2 = Vec::new();
    push_diagnostic(&mut out2, "ok", Some((0, 1)), b"ab\ncd", true);
    assert_eq!(String::from_utf8(out2).unwrap(), "okTypst error on line 1: \nab");
}

#[test]
fn numbers_convert_by_exactness() {
    assert_eq!(convert_number(JsonNumber::PosInt(7)), TypstValue::Int(7));
    assert_eq!(convert_number(JsonNumber::NegInt(-3)), TypstValue::Int(-3));
    let big = JsonNumber::PosInt(u64::MAX);
    assert_eq!(convert_number(big), TypstValue::Float(big));
    let half = JsonNumber::Float(0.5f64.to_bits());
    assert_eq!(convert_number(half), TypstValue::Float(half));
}

#[test]
fn nested_value_converts() {
    let v = JsonValue::Object(vec![
        (s("a"), JsonValue::Number(JsonNumber::PosInt(1))),
        (s("b"), JsonValue::Array(vec![JsonValue::Bool(true), JsonValue::Null, JsonValue::Str(s("x"))])),
    ]);
    let expected = TypstValue::Dict(vec![
        (s("a"), TypstValue::Int(1)),
        (s("b"), TypstValue::Array(vec![TypstValue::Bool(true), TypstValue::NoneValue, TypstValue::Str(s("x"))])),
    ]);
    assert_eq!(json_to_typst(&v), expected);
}

#[test]
fn compile_without_body_is_input_error() {
    let mut t = Typst::new(None);
    t.font(s("/nonexistent/fonts"));
    let r = t.compile();
    assert_eq!(r.err().unwrap(), "No body for typst compiler");
}

#[test]
fn compile_hands_over_body_and_fonts() {
    let mut t = Typst::new(Some(s("Hello")));
    t.font(s("fonts"));
    let job = t.compile().ok().unwrap();
    assert_eq!(job.body, "Hello");
    assert_eq!(job.fonts, vec![s("fonts")]);
    assert!(job.scope.is_empty());
}

#[test]
fn parsed_json_binding_converts() {
    let mut t = Typst::new(Some(s("x")));
    t.json(s("post"), s("{\"a\":1,\"b\":[true,null,\"x\"]}"));
    let scope = compiled_scope(t);
    let expected = TypstValue::Dict(vec![
        (s("a"), TypstValue::Int(1)),
        (s("b"), TypstValue::Array(vec![TypstValue::Bool(true), TypstValue::NoneValue, TypstValue::Str(s("x"))])),
    ]);
    assert_eq!(lookup(&scope, "post"), Some(&expected));
}

#[test]
fn integer_and_fraction_literals_keep_their_kind() {
    let mut t = Typst::new(Some(s("x")));
    t.json(s("i"), s("42"));
    t.json(s("f"), s("2.5"));
    t.json(s("neg"), s("-8"));
    let scope = compiled_scope(t);
    assert_eq!(lookup(&scope, "i"), Some(&TypstValue::Int(42)));
    assert_eq!(lookup(&scope, "neg"), Some(&TypstValue::Int(-8)));
    assert_eq!(lookup(&scope, "f"), Some(&TypstValue::Float(JsonNumber::Float(2.5f64.to_bits()))));
}

#[test]
fn object_members_keep_their_order() {
    let mut t = Typst::new(Some(s("x")));
    t.json(s("o"), s("{\"z\":1,\"a\":2}"));
    let scope = compiled_scope(t);
    let expected = TypstValue::Dict(vec![(s("z"), TypstValue::Int(1)), (s("a"), TypstValue::Int(2))]);
    assert_eq!(lookup(&scope, "o"), Some(&expected));
}

#[test]
fn native_binding_wins_over_json() {
    let mut t = Typst::new(Some(s("x")));
    t.var(s("k"), TypstValue::Str(s("native")));
    t.json(s("k"), s("1"));
    let scope = compiled_scope(t);
    assert_eq!(lookup(&scope, "k"), Some(&TypstValue::Str(s("native"))));
    assert_eq!(scope.len(), 1);
}

#[test]
fn malformed_json_binding_is_skipped() {
    let mut t = Typst::new(Some(s("x")));
    t.json(s("bad"), s("{oops"));
    t.json(s("good"), s("true"));
    let scope = compiled_scope(t);
    assert_eq!(lookup(&scope, "bad"), None);
    assert_eq!(lookup(&scope, "good"), Some(&TypstValue::Bool(true)));
}

#[test]
fn later_json_text_replaces_earlier() {
    let mut t = Typst::new(Some(s("x")));
    t.json(s("post"), s("1"));
    t.json(s("post"), s("2"));
    assert_eq!(t.json.len(), 1);
    let scope = compiled_scope(t);
    assert_eq!(lookup(&scope, "post"), Some(&TypstValue::Int(2)));
}

#[test]
fn bind_replaces_in_place() {
    let mut v: Vec<(String, u8)> = Vec::new();
    bind(&mut v, s("a"), 1);
    bind(&mut v, s("b"), 2);
    bind(&mut v, s("a"), 3);
    assert_eq!(v, vec![(s("a"), 3), (s("b"), 2)]);
}

#[test]
fn make_scope_applies_native_last() {
    let json = vec![(s("a"), s("[1,2]")), (s("b"), s("null"))];
    let vars = vec![(s("b"), TypstValue::Bool(false))];
    let scope = make_scope(&json, vars);
    assert_eq!(lookup(&scope, "a"), Some(&TypstValue::Array(vec![TypstValue::Int(1), TypstValue::Int(2)])));
    assert_eq!(lookup(&scope, "b"), Some(&TypstValue::Bool(false)));
}
