use generate_sql::scan::{derive_answer_fn, field_counters_fit, FieldAttr, Token};
use generate_sql::sql::{delete_sql, insert_sql, select_sql, update_sql, Column};

fn ident(s: &str) -> Token {
    Token::Ident(s.to_string())
}

fn punct(c: char) -> Token {
    Token::Punct(c)
}

/// The tokens of the README's
/// `struct SqlGen{ id:String, nick_name:Option<String>, age:i32,
/// height:Option<f32>, create_time:Option<chrono::NaiveDateTime> }`.
fn readme_struct() -> Vec<Token> {
    let body = vec![
        ident("id"), punct(':'), ident("String"), punct(','),
        ident("nick_name"), punct(':'), ident("Option"), punct('<'), ident("String"), punct('>'), punct(','),
        ident("age"), punct(':'), ident("i32"), punct(','),
        ident("height"), punct(':'), ident("Option"), punct('<'), ident("f32"), punct('>'), punct(','),
        ident("create_time"), punct(':'), ident("Option"), punct('<'), ident("chrono"), punct(':'), punct(':'),
        ident("NaiveDateTime"), punct('>'),
    ];
    vec![ident("struct"), ident("SqlGen"), Token::Group(body)]
}

/// The displayed value of the README's struct value for a field.
fn readme_value(name: &str) -> Option<String> {
    let v = match name {
        "id" => "777777",
        "nick_name" => "昵称",
        "age" => "18",
        "height" => "15.6",
        "create_time" => "2016-07-08 09:10:11",
        _ => return None,
    };
    Some(v.to_string())
}

/// The columns that the derived methods build from the README's value.
fn readme_columns() -> Vec<Column> {
    let toks = readme_struct();
    assert!(field_counters_fit(&toks));
    let derived = derive_answer_fn(&toks);
    assert_eq!(derived.name, "SqlGen");
    derived
        .fields
        .iter()
        .map(|f: &FieldAttr| Column {
            name: f.name.clone(),
            value_type: f.value_type.clone(),
            text: readme_value(&f.name),
        })
        .collect()
}

#[test]
fn readme_struct_insert_end_to_end() {
    assert_eq!(
        insert_sql(&readme_columns(), "sys_user"),
        "insert into sys_user (id,nick_name,age,height,create_time) values ('777777','昵称',18,15.6,'2016-07-08 09:10:11')"
    );
}

#[test]
fn readme_struct_update_end_to_end() {
    assert_eq!(
        update_sql(&readme_columns(), "sys_user", "id"),
        "update sys_user set nick_name='昵称',age=18,height=15.6,create_time='2016-07-08 09:10:11' where id='777777'"
    );
}

#[test]
fn readme_struct_select_end_to_end() {
    assert_eq!(
        select_sql(&readme_columns(), "sys_user"),
        "select * from sys_user where id='777777' and nick_name='昵称' and age=18 and height=15.6 and create_time='2016-07-08 09:10:11'"
    );
}

#[test]
fn readme_struct_delete_end_to_end() {
    assert_eq!(delete_sql(&readme_columns(), "sys_user", "id"), "delete from sys_user where id='777777'");
}

#[test]
fn readme_struct_without_nick_name() {
    let mut cols = readme_columns();
    cols[1].text = None;
    assert_eq!(
        update_sql(&cols, "sys_user", "id"),
        "update sys_user set age=18,height=15.6,create_time='2016-07-08 09:10:11' where id='777777'"
    );
    assert_eq!(
        insert_sql(&cols, "sys_user"),
        "insert into sys_user (id,age,height,create_time) values ('777777',18,15.6,'2016-07-08 09:10:11')"
    );
}
