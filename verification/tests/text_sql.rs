use rsrv::sqlval::{sql_text, Tables, Val, ValLi};
use rsrv::text::{remove_comment, sql_statements};

#[test]
fn decimal_texts() {
    assert_eq!(Val::from_u64(0).as_str(), "0");
    assert_eq!(Val::from_u64(u64::MAX).as_str(), "18446744073709551615");
    assert_eq!(Val::from_i64(-7).as_str(), "-7");
    assert_eq!(Val::from_i64(i64::MIN).as_str(), "-9223372036854775808");
}

#[test]
fn remove_comment_cases() {
    assert_eq!(remove_comment("a # c\r\n\n  b\n#x\nc#"), "a\n  b\nc");
    assert_eq!(remove_comment(""), "");
    assert_eq!(remove_comment("x\r"), "x\r");
    assert_eq!(remove_comment("k = 1 \t# note\u{3000}"), "k = 1");
    assert_eq!(remove_comment("   \n"), "   ");
}

#[test]
fn sql_statements_of_script() {
    let li = sql_statements("CREATE x; -- \n# c\nINSERT y;\n  ");
    assert_eq!(li, vec!["CREATE x;".to_string(), " -- \nINSERT y;".to_string()]);
    assert!(sql_statements("").is_empty());
    assert_eq!(sql_statements("a#;b"), vec!["a".to_string(), "b;".to_string()]);
}

#[test]
fn val_texts() {
    assert_eq!(Val::from_u64(42).as_str(), "42");
    assert_eq!(Val::from_i64(-3).as_str(), "-3");
    assert_eq!(Val::from_str("test").as_str(), "'test'");
    assert_eq!(Val::from_str("\'\"\r\n").as_str(), "'\\'\"\\r\\n'");
    assert_eq!(Val::from_str("a\\b").as_str(), "'a\\\\b'");
    assert_eq!(Val::from_string("é'".to_string()).to_string(), "'é\\''");
}

#[test]
fn sql_text_fills_placeholders() {
    let args = ValLi::from_vals(vec![Val::from_u64(1), Val::from_u64(2), Val::from_str("test")]);
    assert_eq!(
        sql_text("INSERT INTO test (ts,uid,tag) VALUES ({},{},{})", &args),
        "INSERT INTO test (ts,uid,tag) VALUES (1,2,'test')"
    );
    assert_eq!(sql_text("SELECT * FROM test", &ValLi::from_unit()), "SELECT * FROM test");
    assert_eq!(sql_text("{}", &ValLi::from_val(Val::from_u64(9))), "9");
    assert_eq!(sql_text("{{}}{}", &ValLi::from_val(Val::from_u64(1))), "{}1");
    let one = ValLi::from_val(Val::from_u64(1));
    assert_eq!(sql_text("{}a{}b", &one), "1ab");
    assert_eq!(sql_text("{a}", &one), "a");
    assert_eq!(sql_text("x}y{", &one), "xy");
}

#[test]
fn tables_from_names() {
    let t = Tables::from_strs(&["test", "seen"]);
    assert_eq!(t.0, vec!["test".to_string(), "seen".to_string()]);
    let t = Tables::from_vec(vec!["a".to_string()]);
    assert_eq!(t.0, vec!["a".to_string()]);
}

#[test]
fn remove_comment_twice_is_once() {
    for s in ["a # c\n\n  b \n#x\nc#", "", "x\ty  \n # only\n\u{3000}z #w", "k = 1 \t# note\u{3000}"] {
        let once = remove_comment(s);
        assert_eq!(remove_comment(&once), once);
    }
}

#[test]
fn remove_comment_of_joined_texts() {
    let cases = [("x # 1\n y", "#z\nw"), ("# all", "b # c"), ("a", "#"), ("", "q"), ("p\r\n", "r")];
    for (a, b) in cases {
        let whole = remove_comment(&format!("{a}\n{b}"));
        let parts: Vec<String> = [remove_comment(a), remove_comment(b)]
            .into_iter()
            .filter(|x| !x.is_empty())
            .collect();
        assert_eq!(whole, parts.join("\n"));
    }
    assert_eq!(remove_comment("x # 1\n y\n#z\nw"), "x\n y\nw");
}
