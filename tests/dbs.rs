use surrealkv_core::clock::{Duration, FakeClock, IncFakeClock, SizedClock, Timestamp};
use surrealkv_core::dbs::{Auth, Context, Error, Literal, Options, Session};
use surrealkv_core::exe::{Executor, Statement};
use surrealkv_core::keys::key_lt;
use surrealkv_core::kvs::Datastore;
use surrealkv_core::query::parse;
use surrealkv_core::yuse::{yuse, UseStatement};

fn session() -> Session {
    Session { au: Auth::Kv, ns: None, db: None }
}

fn run_text(txt: &str) -> Options {
    let mut ds = Datastore::new("memory").unwrap();
    let ast = parse(txt).unwrap();
    let ctx = Context::new();
    let mut opt = Options::new(Auth::Kv);
    let res = Executor::new().execute(&mut ds, &ctx, &mut opt, &ast).unwrap();
    assert_eq!(res.len(), ast.len());
    opt
}

#[test]
fn executing_use_ns_sets_only_namespace() {
    let opt = run_text("USE NS test");
    assert_eq!(opt.ns, Some(String::from("test")));
    assert_eq!(opt.db, None);
}

#[test]
fn executing_use_both_sets_both() {
    let opt = run_text("USE NS test DB test");
    assert_eq!(opt.ns, Some(String::from("test")));
    assert_eq!(opt.db, Some(String::from("test")));
}

#[test]
fn executing_use_db_sets_only_database() {
    let opt = run_text("USE DB test");
    assert_eq!(opt.ns, None);
    assert_eq!(opt.db, Some(String::from("test")));
}

#[test]
fn later_statements_see_earlier_selection() {
    let opt = run_text("USE NS a DB b; USE DB c ;");
    assert_eq!(opt.ns, Some(String::from("a")));
    assert_eq!(opt.db, Some(String::from("c")));
}

#[test]
fn failing_statement_does_not_abort_batch() {
    let mut ds = Datastore::new("memory").unwrap();
    let ast = vec![
        Statement::Use(yuse("USE NS test").unwrap().1),
        Statement::Param(String::from("missing")),
        Statement::Param(String::from("x")),
    ];
    let vars = vec![(String::from("x"), Literal::Int(5))];
    let res = ds.process(&ast, &session(), vars).unwrap();
    assert_eq!(res.len(), 3);
    assert_eq!(res[0].result, Ok(Literal::Nothing));
    assert_eq!(res[1].result, Err(Error::UndefinedVariable));
    assert_eq!(res[2].result, Ok(Literal::Int(5)));
}

#[test]
fn later_bindings_shadow_earlier() {
    let ctx = Context::new().attach(vec![
        (String::from("v"), Literal::Int(1)),
        (String::from("v"), Literal::Strand(String::from("two"))),
    ]);
    assert_eq!(ctx.value(&String::from("v")), Some(Literal::Strand(String::from("two"))));
    assert_eq!(ctx.value(&String::from("w")), None);
}

#[test]
fn use_twice_equals_use_once() {
    let st = UseStatement { ns: Some(String::from("n")), db: None };
    let mut once = Options::new(Auth::No);
    once.db = Some(String::from("d"));
    let mut twice = Options::new(Auth::No);
    twice.db = Some(String::from("d"));
    st.process(&mut once).unwrap();
    st.process(&mut twice).unwrap();
    st.process(&mut twice).unwrap();
    assert_eq!(once.ns, twice.ns);
    assert_eq!(once.db, twice.db);
    assert_eq!(twice.ns, Some(String::from("n")));
    assert_eq!(twice.db, Some(String::from("d")));
}

#[test]
fn datastore_execute_parses_and_runs() {
    let mut ds = Datastore::new("memory").unwrap();
    let res = ds.execute("USE NS test; USE DB test", &session(), vec![]).unwrap();
    assert_eq!(res.len(), 2);
    assert_eq!(res[0].result, Ok(Literal::Nothing));
    assert_eq!(res[1].result, Ok(Literal::Nothing));
}

#[test]
fn datastore_execute_rejects_bad_text() {
    let mut ds = Datastore::new("memory").unwrap();
    assert_eq!(ds.execute("USE NS", &session(), vec![]).unwrap_err(), Error::Parse);
    assert_eq!(ds.execute("USE NS a USE DB b", &session(), vec![]).unwrap_err(), Error::Parse);
    assert_eq!(ds.execute("   ", &session(), vec![]).unwrap().len(), 0);
}

#[test]
fn datastore_paths_select_backend() {
    assert!(Datastore::new("memory").is_ok());
    assert_eq!(Datastore::new("file://temp.db").unwrap_err(), Error::BackendUnavailable);
    assert_eq!(Datastore::new("tikv://127.0.0.1:2379").unwrap_err(), Error::BackendUnavailable);
    assert_eq!(Datastore::new("ixdb:x").unwrap_err(), Error::BackendUnavailable);
    assert_eq!(Datastore::new("memoryx").unwrap_err(), Error::InvalidPath);
    assert_eq!(Datastore::new("redis://x").unwrap_err(), Error::InvalidPath);
}

#[test]
fn read_only_transaction_refuses_writes() {
    let mut ds = Datastore::new("memory").unwrap();
    let mut w = ds.transaction(true, false).unwrap();
    w.set(b"k".to_vec(), b"v".to_vec()).unwrap();
    w.commit(&mut ds).unwrap();
    let mut tx = ds.transaction(false, false).unwrap();
    assert_eq!(tx.set(b"k".to_vec(), b"z".to_vec()), Err(Error::TxReadonly));
    assert_eq!(tx.del(b"k".to_vec()), Err(Error::TxReadonly));
    assert_eq!(tx.get(&b"k".to_vec()), Ok(Some(b"v".to_vec())));
}

#[test]
fn transaction_reads_its_own_writes_and_deletes() {
    let mut ds = Datastore::new("memory").unwrap();
    let mut tx = ds.transaction(true, true).unwrap();
    assert_eq!(tx.get(&b"a".to_vec()), Ok(None));
    tx.set(b"a".to_vec(), b"1".to_vec()).unwrap();
    tx.set(b"b".to_vec(), b"2".to_vec()).unwrap();
    assert_eq!(tx.get(&b"a".to_vec()), Ok(Some(b"1".to_vec())));
    tx.del(b"a".to_vec()).unwrap();
    assert_eq!(tx.get(&b"a".to_vec()), Ok(None));
    assert_eq!(tx.get(&b"b".to_vec()), Ok(Some(b"2".to_vec())));
}

#[test]
fn finished_transaction_fails_loudly() {
    let mut ds = Datastore::new("memory").unwrap();
    let mut tx = ds.transaction(true, false).unwrap();
    tx.cancel(&mut ds).unwrap();
    assert_eq!(tx.get(&b"a".to_vec()), Err(Error::TxFinished));
    assert_eq!(tx.set(b"a".to_vec(), b"1".to_vec()), Err(Error::TxFinished));
    assert_eq!(tx.cancel(&mut ds), Err(Error::TxFinished));
    assert_eq!(tx.commit(&mut ds), Err(Error::TxFinished));
}

#[test]
fn cancelled_writes_are_discarded_and_commits_conflict() {
    let mut ds = Datastore::new("memory").unwrap();
    let mut a = ds.transaction(true, false).unwrap();
    let mut b = ds.transaction(true, false).unwrap();
    let mut c = ds.transaction(true, false).unwrap();
    a.set(b"k".to_vec(), b"a".to_vec()).unwrap();
    b.set(b"k".to_vec(), b"b".to_vec()).unwrap();
    c.set(b"k".to_vec(), b"c".to_vec()).unwrap();
    c.cancel(&mut ds).unwrap();
    a.commit(&mut ds).unwrap();
    assert_eq!(b.commit(&mut ds), Err(Error::TxConflict));
    let r = ds.transaction(false, false).unwrap();
    assert_eq!(r.get(&b"k".to_vec()), Ok(Some(b"a".to_vec())));
}

#[test]
fn locking_writer_excludes_a_second_one_until_it_ends() {
    let mut ds = Datastore::new("memory").unwrap();
    let mut first = ds.transaction(true, true).unwrap();
    assert_eq!(ds.transaction(true, true).unwrap_err(), Error::TxLocked);
    let mut reader = ds.transaction(false, true).unwrap();
    assert_eq!(reader.get(&b"k".to_vec()), Ok(None));
    let mut other = ds.transaction(true, false).unwrap();
    other.set(b"k".to_vec(), b"other".to_vec()).unwrap();
    assert_eq!(other.commit(&mut ds), Err(Error::TxLocked));
    first.set(b"k".to_vec(), b"first".to_vec()).unwrap();
    first.commit(&mut ds).unwrap();
    let mut second = ds.transaction(true, true).unwrap();
    assert_eq!(second.get(&b"k".to_vec()), Ok(Some(b"first".to_vec())));
    second.cancel(&mut ds).unwrap();
    assert!(ds.transaction(true, true).is_ok());
}

#[test]
fn cancelling_a_locking_writer_releases_the_lock() {
    let mut ds = Datastore::new("memory").unwrap();
    let mut first = ds.transaction(true, true).unwrap();
    first.set(b"a".to_vec(), b"1".to_vec()).unwrap();
    first.cancel(&mut ds).unwrap();
    let mut next = ds.transaction(true, true).unwrap();
    assert_eq!(next.get(&b"a".to_vec()), Ok(None));
    next.commit(&mut ds).unwrap();
}

#[test]
fn scan_returns_live_keys_of_range_in_order() {
    let mut ds = Datastore::new("memory").unwrap();
    let mut w = ds.transaction(true, false).unwrap();
    w.set(b"c".to_vec(), b"3".to_vec()).unwrap();
    w.set(b"a".to_vec(), b"1".to_vec()).unwrap();
    w.set(b"e".to_vec(), b"5".to_vec()).unwrap();
    w.commit(&mut ds).unwrap();
    let mut tx = ds.transaction(true, false).unwrap();
    tx.set(b"b".to_vec(), b"2".to_vec()).unwrap();
    tx.set(b"c".to_vec(), b"33".to_vec()).unwrap();
    tx.del(b"a".to_vec()).unwrap();
    tx.set(b"ab".to_vec(), b"12".to_vec()).unwrap();
    let all = tx.scan(&b"".to_vec(), &b"z".to_vec()).unwrap();
    assert_eq!(
        all,
        vec![
            (b"ab".to_vec(), b"12".to_vec()),
            (b"b".to_vec(), b"2".to_vec()),
            (b"c".to_vec(), b"33".to_vec()),
            (b"e".to_vec(), b"5".to_vec()),
        ]
    );
    let part = tx.scan(&b"b".to_vec(), &b"e".to_vec()).unwrap();
    assert_eq!(part, vec![(b"b".to_vec(), b"2".to_vec()), (b"c".to_vec(), b"33".to_vec())]);
    assert_eq!(tx.scan(&b"x".to_vec(), &b"a".to_vec()).unwrap(), vec![]);
    tx.cancel(&mut ds).unwrap();
    assert_eq!(tx.scan(&b"".to_vec(), &b"z".to_vec()), Err(Error::TxFinished));
}

#[test]
fn key_order_is_lexicographic() {
    assert!(key_lt(&b"a".to_vec(), &b"b".to_vec()));
    assert!(key_lt(&b"a".to_vec(), &b"ab".to_vec()));
    assert!(key_lt(&b"".to_vec(), &b"a".to_vec()));
    assert!(!key_lt(&b"b".to_vec(), &b"ab".to_vec()));
    assert!(!key_lt(&b"ab".to_vec(), &b"ab".to_vec()));
}

#[test]
fn responses_carry_time_from_the_store_clock() {
    let mut ds = Datastore::new("memory").unwrap();
    ds.set_clock(SizedClock::Inc(IncFakeClock::new(Timestamp { value: 0 }, Duration { millis: 10 })));
    let res = ds.execute("USE NS a; USE DB b", &session(), vec![]).unwrap();
    assert_eq!(res.len(), 2);
    assert_eq!(res[0].time, Duration { millis: 10 });
    assert_eq!(res[1].time, Duration { millis: 10 });
    ds.set_clock(SizedClock::Fake(FakeClock::new(Timestamp { value: 5 })));
    let res = ds.execute("USE NS a", &session(), vec![]).unwrap();
    assert_eq!(res[0].time, Duration { millis: 0 });
}

#[test]
fn tick_reads_the_store_clock() {
    let mut ds = Datastore::new("memory").unwrap();
    assert!(ds.tick().unwrap() > 1_600_000_000_000);
    ds.set_clock(SizedClock::Inc(IncFakeClock::new(Timestamp { value: 3 }, Duration { millis: 4 })));
    assert_eq!(ds.tick(), Ok(7));
    assert_eq!(ds.tick(), Ok(11));
    ds.set_clock(SizedClock::Inc(IncFakeClock::new(Timestamp { value: u64::MAX }, Duration { millis: 1 })));
    assert_eq!(ds.tick(), Ok(0));
    ds.set_clock(SizedClock::Fake(FakeClock::new(Timestamp { value: 8 })));
    assert_eq!(ds.tick(), Ok(8));
    assert_eq!(ds.tick(), Ok(8));
}
