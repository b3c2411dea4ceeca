use generate_sql::sql::{delete_sql, insert_sql, kind_of_type, select_sql, update_sql, Column, ValueKind};

fn col(name: &str, value_type: &str, text: Option<&str>) -> Column {
    Column {
        name: name.to_string(),
        value_type: value_type.to_string(),
        text: text.map(|t| t.to_string()),
    }
}

/// The struct value of the README, with its columns in the order of the
/// README's output.
fn readme_columns() -> Vec<Column> {
    vec![
        col("nick_name", "String", Some("昵称")),
        col("age", "i32", Some("18")),
        col("id", "String", Some("777777")),
        col("height", "f32", Some("15.6")),
        col("create_time", "NaiveDateTime", Some("2016-07-08 09:10:11")),
    ]
}

#[test]
fn readme_insert() {
    assert_eq!(
        insert_sql(&readme_columns(), "sys_user"),
        "insert into sys_user (nick_name,age,id,height,create_time) values ('昵称',18,'777777',15.6,'2016-07-08 09:10:11')"
    );
}

#[test]
fn readme_update() {
    assert_eq!(
        update_sql(&readme_columns(), "sys_user", "id"),
        "update sys_user set nick_name='昵称',age=18,height=15.6,create_time='2016-07-08 09:10:11' where id='777777'"
    );
}

#[test]
fn readme_select() {
    assert_eq!(
        select_sql(&readme_columns(), "sys_user"),
        "select * from sys_user where nick_name='昵称' and age=18 and id='777777' and height=15.6 and create_time='2016-07-08 09:10:11'"
    );
}

#[test]
fn readme_delete() {
    assert_eq!(delete_sql(&readme_columns(), "sys_user", "id"), "delete from sys_user where id='777777'");
}

#[test]
fn kinds_of_type_names() {
    for t in ["i8", "i16", "i32", "i64", "u8", "u16", "u32", "u64", "f8", "f16", "f32", "f64"] {
        assert_eq!(kind_of_type(&t.to_string()), ValueKind::Number);
    }
    assert_eq!(kind_of_type(&"String".to_string()), ValueKind::Text);
    assert_eq!(kind_of_type(&"NaiveDateTime".to_string()), ValueKind::DateTime);
    for t in ["bool", "i128", "usize", "str", "string", "Option", ""] {
        assert_eq!(kind_of_type(&t.to_string()), ValueKind::Other);
    }
}

#[test]
fn absent_and_unwritten_columns_are_left_out() {
    let cols = vec![
        col("a", "i64", Some("1")),
        col("b", "String", None),
        col("c", "bool", Some("true")),
        col("d", "u8", Some("7")),
    ];
    assert_eq!(insert_sql(&cols, "t"), "insert into t (a,d) values (1,7)");
    assert_eq!(select_sql(&cols, "t"), "select * from t where a=1 and d=7");
    assert_eq!(update_sql(&cols, "t", "d"), "update t set a=1 where d=7");
    assert_eq!(delete_sql(&cols, "t", "a"), "delete from t where a=1");
}

#[test]
fn law_silent_column_scenario() {
    let without = vec![col("a", "i32", Some("1")), col("z", "String", Some("q"))];
    let with = vec![
        col("n", "f64", None),
        col("a", "i32", Some("1")),
        col("m", "Vec", Some("[1]")),
        col("z", "String", Some("q")),
    ];
    assert_eq!(insert_sql(&with, "t"), insert_sql(&without, "t"));
    assert_eq!(select_sql(&with, "t"), select_sql(&without, "t"));
    assert_eq!(update_sql(&with, "t", "a"), update_sql(&without, "t", "a"));
    assert_eq!(delete_sql(&with, "t", "z"), delete_sql(&without, "t", "z"));
}

#[test]
fn empty_struct_statements() {
    let cols: Vec<Column> = vec![];
    assert_eq!(insert_sql(&cols, "t"), "insert into t () values ()");
    assert_eq!(update_sql(&cols, "t", "id"), "update t set  where ");
    assert_eq!(select_sql(&cols, "t"), "select * from t where ");
    assert_eq!(delete_sql(&cols, "t", "id"), "delete from t where ");
}

#[test]
fn update_with_key_first_has_no_leading_comma() {
    let cols = vec![col("id", "i64", Some("5")), col("a", "String", Some("x")), col("b", "u16", Some("2"))];
    assert_eq!(update_sql(&cols, "t", "id"), "update t set a='x',b=2 where id=5");
    let key_only = vec![col("id", "i64", Some("5"))];
    assert_eq!(update_sql(&key_only, "t", "id"), "update t set  where id=5");
    let key_last = vec![col("a", "String", Some("x")), col("id", "i64", Some("5"))];
    assert_eq!(update_sql(&key_last, "t", "id"), "update t set a='x' where id=5");
    let key_between = vec![col("a", "String", Some("x")), col("id", "i64", Some("5")), col("b", "u16", Some("2"))];
    assert_eq!(update_sql(&key_between, "t", "id"), "update t set a='x',b=2 where id=5");
    let two = vec![col("id", "String", Some("7")), col("age", "i32", Some("18"))];
    assert_eq!(update_sql(&two, "t", "id"), "update t set age=18 where id='7'");
}

#[test]
fn law_update_matches_select_scenario() {
    let cols = vec![col("id", "String", Some("7")), col("a", "String", Some("x")), col("b", "u16", None), col("c", "f32", Some("1.5"))];
    assert_eq!(select_sql(&cols, "t"), "select * from t where id='7' and a='x' and c=1.5");
    assert_eq!(update_sql(&cols, "t", "id"), "update t set a='x',c=1.5 where id='7'");
}

#[test]
fn law_update_without_key_scenario() {
    let cols = vec![col("a", "String", Some("x")), col("b", "u16", Some("2"))];
    assert_eq!(update_sql(&cols, "t", "id"), "update t set a='x',b=2 where ");
    assert_eq!(delete_sql(&cols, "t", "id"), "delete from t where ");
}

#[test]
fn law_delete_depends_only_on_key_scenario() {
    let c1 = vec![col("id", "u32", Some("9")), col("a", "String", Some("x")), col("b", "i8", None)];
    let c2 = vec![col("id", "u32", Some("9")), col("a", "String", None), col("b", "i8", Some("-3"))];
    assert_eq!(delete_sql(&c1, "t", "id"), "delete from t where id=9");
    assert_eq!(delete_sql(&c1, "t", "id"), delete_sql(&c2, "t", "id"));
    assert_ne!(update_sql(&c1, "t", "id"), update_sql(&c2, "t", "id"));
}

#[test]
fn date_time_key_is_not_a_condition() {
    let cols = vec![col("at", "NaiveDateTime", Some("2016-07-08 09:10:11")), col("a", "i32", Some("1"))];
    assert_eq!(update_sql(&cols, "t", "at"), "update t set a=1 where ");
    assert_eq!(delete_sql(&cols, "t", "at"), "delete from t where ");
    assert_eq!(update_sql(&cols, "t", "a"), "update t set at='2016-07-08 09:10:11' where a=1");
}

#[test]
fn text_is_written_as_given() {
    let cols = vec![col("s", "String", Some("it's")), col("n", "String", Some(""))];
    assert_eq!(insert_sql(&cols, "t"), "insert into t (s,n) values ('it's','')");
}
