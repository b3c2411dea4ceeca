use generate_sql::scan::{derive_answer_fn, field_counters_fit, DerivedStruct, Token};

fn ident(s: &str) -> Token {
    Token::Ident(s.to_string())
}

fn punct(c: char) -> Token {
    Token::Punct(c)
}

fn group(toks: Vec<Token>) -> Token {
    Token::Group(toks)
}

/// `name: a::b::c` as tokens.
fn field(name: &str, path: &[&str]) -> Vec<Token> {
    let mut v = vec![ident(name), punct(':')];
    for (i, seg) in path.iter().enumerate() {
        if i > 0 {
            v.push(punct(':'));
            v.push(punct(':'));
        }
        v.push(ident(seg));
    }
    v
}

/// `name: Option<a::b::c>` as tokens.
fn opt_field(name: &str, path: &[&str]) -> Vec<Token> {
    let mut v = vec![ident(name), punct(':'), ident("Option"), punct('<')];
    v.extend(field("x", path).into_iter().skip(2));
    v.push(punct('>'));
    v
}

fn fields_of(d: &DerivedStruct) -> Vec<(String, String, bool)> {
    d.fields.iter().map(|f| (f.name.clone(), f.value_type.clone(), f.opt)).collect()
}

fn expect(v: &[(&str, &str, bool)]) -> Vec<(String, String, bool)> {
    v.iter().map(|(n, t, o)| (n.to_string(), t.to_string(), *o)).collect()
}

/// The README's struct `SqlGen`, without a comma after its last field.
fn readme_struct() -> Vec<Token> {
    let mut body = Vec::new();
    body.extend(field("id", &["String"]));
    body.push(punct(','));
    body.extend(opt_field("nick_name", &["String"]));
    body.push(punct(','));
    body.extend(field("age", &["i32"]));
    body.push(punct(','));
    body.extend(opt_field("height", &["f32"]));
    body.push(punct(','));
    body.extend(opt_field("create_time", &["chrono", "NaiveDateTime"]));
    vec![ident("struct"), ident("SqlGen"), group(body)]
}

#[test]
fn readme_struct_is_read_in_order() {
    let toks = readme_struct();
    assert!(field_counters_fit(&toks));
    let d = derive_answer_fn(&toks);
    assert_eq!(d.name, "SqlGen");
    assert_eq!(
        fields_of(&d),
        expect(&[
            ("id", "String", false),
            ("nick_name", "String", true),
            ("age", "i32", false),
            ("height", "f32", true),
            ("create_time", "NaiveDateTime", true),
        ])
    );
}

#[test]
fn law_plain_struct_with_pub_fields() {
    // pub struct UserModel { pub user_name: String, pub password: String }
    let mut body = vec![ident("pub")];
    body.extend(field("user_name", &["String"]));
    body.push(punct(','));
    body.push(ident("pub"));
    body.extend(field("password", &["std", "string", "String"]));
    body.push(punct(','));
    let toks = vec![ident("pub"), ident("struct"), ident("UserModel"), group(body)];
    let d = derive_answer_fn(&toks);
    assert_eq!(d.name, "UserModel");
    assert_eq!(fields_of(&d), expect(&[("user_name", "String", false), ("password", "String", false)]));
}

#[test]
fn repeated_name_is_overwritten_in_place() {
    let mut body = field("a", &["i32"]);
    body.push(punct(','));
    body.extend(field("b", &["u8"]));
    body.push(punct(','));
    body.extend(field("a", &["String"]));
    let d = derive_answer_fn(&vec![ident("struct"), ident("S"), group(body)]);
    assert_eq!(fields_of(&d), expect(&[("a", "String", false), ("b", "u8", false)]));
}

#[test]
fn leading_punctuation_writes_an_unnamed_field() {
    // #[serde(x)] a: i32
    let body = vec![punct('#'), group(vec![ident("serde"), group(vec![ident("x")])]), ident("a"), punct(':'), ident("i32")];
    let d = derive_answer_fn(&vec![ident("struct"), ident("S"), group(body)]);
    assert_eq!(fields_of(&d), expect(&[("", "", false), ("a", "i32", false)]));
}

#[test]
fn tuple_struct_reads_the_first_type_as_a_name() {
    // struct P(pub String, i32);
    let body = vec![ident("pub"), ident("String"), punct(','), ident("i32")];
    let d = derive_answer_fn(&vec![ident("struct"), ident("P"), group(body), punct(';')]);
    assert_eq!(d.name, "P");
    assert_eq!(fields_of(&d), expect(&[("String", "i32", false)]));
}

#[test]
fn every_group_is_read_into_one_list() {
    // #[allow(dead_code)] struct A { x: i32 }
    let attr = group(vec![ident("allow"), group(vec![ident("dead_code")])]);
    let toks = vec![punct('#'), attr, ident("struct"), ident("A"), group(field("x", &["i32"]))];
    let d = derive_answer_fn(&toks);
    assert_eq!(d.name, "A");
    assert_eq!(fields_of(&d), expect(&[("allow", "allow", false), ("x", "i32", false)]));
}

#[test]
fn last_identifier_names_the_struct() {
    // struct W<T> { x: T }
    let toks = vec![ident("struct"), ident("W"), punct('<'), ident("T"), punct('>'), group(field("x", &["T"]))];
    let d = derive_answer_fn(&toks);
    assert_eq!(d.name, "T");
    assert_eq!(fields_of(&d), expect(&[("x", "T", false)]));
}

#[test]
fn first_token_never_names_the_struct() {
    let d = derive_answer_fn(&vec![ident("Only")]);
    assert_eq!(d.name, "");
    assert!(d.fields.is_empty());
    let d = derive_answer_fn(&vec![]);
    assert_eq!(d.name, "");
}

#[test]
fn nested_option_keeps_the_inner_type() {
    // a: Option<Option<i64>>
    let body = vec![
        ident("a"), punct(':'), ident("Option"), punct('<'), ident("Option"), punct('<'), ident("i64"), punct('>'), punct('>'),
    ];
    let d = derive_answer_fn(&vec![ident("struct"), ident("S"), group(body)]);
    assert_eq!(fields_of(&d), expect(&[("a", "i64", true)]));
}

#[test]
fn colon_counter_limit() {
    let ok: Vec<Token> = (0..127).map(|_| punct(':')).collect();
    assert!(field_counters_fit(&vec![ident("struct"), group(ok)]));
    let over: Vec<Token> = (0..128).map(|_| punct(':')).collect();
    assert!(!field_counters_fit(&vec![ident("struct"), group(over)]));
}

#[test]
fn angle_counter_limits() {
    let open: Vec<Token> = (0..127).map(|_| punct('<')).collect();
    assert!(field_counters_fit(&vec![group(open)]));
    let too_open: Vec<Token> = (0..128).map(|_| punct('<')).collect();
    assert!(!field_counters_fit(&vec![group(too_open)]));
    let close: Vec<Token> = (0..128).map(|_| punct('>')).collect();
    assert!(field_counters_fit(&vec![group(close)]));
    let too_close: Vec<Token> = (0..129).map(|_| punct('>')).collect();
    assert!(!field_counters_fit(&vec![group(too_close)]));
}

#[test]
fn identifiers_reset_the_colon_counter() {
    let mut body = Vec::new();
    for _ in 0..3 {
        body.extend((0..100).map(|_| punct(':')));
        body.push(ident("a"));
    }
    let toks = vec![ident("struct"), ident("S"), group(body)];
    assert!(field_counters_fit(&toks));
    let d = derive_answer_fn(&toks);
    assert_eq!(fields_of(&d), expect(&[("", "a", false)]));
}
