use surrealkv_core::yuse::{yuse, ParseError, UseStatement};

#[test]
fn use_query_ns() {
    let sql = "USE NS test";
    let res = yuse(sql);
    assert!(res.is_ok());
    let out = res.unwrap().1;
    assert_eq!(
        out,
        UseStatement {
            ns: Some(String::from("test")),
            db: None,
        }
    );
    assert_eq!("USE NS test", out.to_string());
}

#[test]
fn use_query_db() {
    let sql = "USE DB test";
    let res = yuse(sql);
    assert!(res.is_ok());
    let out = res.unwrap().1;
    assert_eq!(
        out,
        UseStatement {
            ns: None,
            db: Some(String::from("test")),
        }
    );
    assert_eq!("USE DB test", out.to_string());
}

#[test]
fn use_query_both() {
    let sql = "USE NS test DB test";
    let res = yuse(sql);
    assert!(res.is_ok());
    let out = res.unwrap().1;
    assert_eq!(
        out,
        UseStatement {
            ns: Some(String::from("test")),
            db: Some(String::from("test")),
        }
    );
    assert_eq!("USE NS test DB test", out.to_string());
}

#[test]
fn long_keywords_and_any_case_are_accepted() {
    let (rest, out) = yuse("use namespace app database main;").unwrap();
    assert_eq!(rest, ";");
    assert_eq!(out.ns, Some(String::from("app")));
    assert_eq!(out.db, Some(String::from("main")));
    assert_eq!(out.to_string(), "USE NS app DB main");
}

#[test]
fn namespace_alone_leaves_the_rest() {
    let (rest, out) = yuse("USE NS a  DATABASEX").unwrap();
    assert_eq!(rest, "  DATABASEX");
    assert_eq!(out.ns, Some(String::from("a")));
    assert_eq!(out.db, None);
}

#[test]
fn malformed_use_is_rejected() {
    assert_eq!(yuse("USE").unwrap_err(), ParseError::Invalid);
    assert_eq!(yuse("USENS a").unwrap_err(), ParseError::Invalid);
    assert_eq!(yuse("USE NS").unwrap_err(), ParseError::Invalid);
    assert_eq!(yuse("USE DB test NS test").map(|r| r.0), Ok(String::from(" NS test")));
    assert_eq!(yuse("").unwrap_err(), ParseError::Invalid);
}

#[test]
fn formatting_then_parsing_round_trips() {
    let forms = vec![
        UseStatement { ns: Some(String::from("n1")), db: None },
        UseStatement { ns: None, db: Some(String::from("d_2")) },
        UseStatement { ns: Some(String::from("x")), db: Some(String::from("Y")) },
    ];
    for st in forms {
        let text = st.to_string();
        let (rest, back) = yuse(&text).unwrap();
        assert_eq!(rest, "");
        assert_eq!(back, st);
    }
}
