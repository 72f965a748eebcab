use vstd::prelude::*;
use crate::clock::{Duration, SizedClock};
use crate::dbs::{lookup, Context, Error, Literal, Options, Selection, Session, Variables};
use crate::query::{parse, parse_query, uses_match};
use crate::kvs::Datastore;
use crate::yuse::{apply_use, UseStatement};

verus! {

/// One parsed unit of work.
#[derive(Debug)]
pub enum Statement {
    /// Selects the active namespace and/or database.
    Use(UseStatement),
    /// Yields the value of the named variable.
    Param(String),
}

/// What processing `st` does under the bindings `vars` and the selection
/// `sel`: the selection after it, and its result.
pub open spec fn step(vars: Seq<(String, Literal)>, sel: Selection, st: Statement) -> (Selection, Result<Literal, Error>) {
    match st {
        Statement::Use(u) => (apply_use(sel, u@), Ok(Literal::Nothing)),
        Statement::Param(n) => (sel, match lookup(vars, n@) {
            Some(v) => Ok(v),
            None => Err(Error::UndefinedVariable),
        }),
    }
}

/// Processing `stmts` in order, each under the selection that the ones
/// before it left: the final selection, and one result per statement.
pub open spec fn run(vars: Seq<(String, Literal)>, sel: Selection, stmts: Seq<Statement>) -> (Selection, Seq<Result<Literal, Error>>)
    decreases stmts.len(),
{
    if stmts.len() == 0 {
        (sel, Seq::empty())
    } else {
        let (s1, rs) = run(vars, sel, stmts.drop_last());
        let (s2, r) = step(vars, s1, stmts.last());
        (s2, rs.push(r))
    }
}

proof fn lemma_run_len(vars: Seq<(String, Literal)>, sel: Selection, stmts: Seq<Statement>)
    ensures
        run(vars, sel, stmts).1.len() == stmts.len(),
    decreases stmts.len(),
{
    if stmts.len() > 0 {
        lemma_run_len(vars, sel, stmts.drop_last());
    }
}

impl Statement {
    /// Processes the statement against the context and the run options.
    pub fn process(&self, ctx: &Context, opt: &mut Options) -> (r: Result<Literal, Error>)
        ensures
            (final(opt).selection(), r) == step(ctx.vars@, old(opt).selection(), *self),
            final(opt).auth == old(opt).auth,
    {
        match self {
            Statement::Use(u) => u.process(opt),
            Statement::Param(n) => match ctx.value(n) {
                Some(v) => Ok(v),
                None => Err(Error::UndefinedVariable),
            },
        }
    }
}

/// The outcome of one statement, and how long it took.
#[derive(Debug)]
pub struct Response {
    pub result: Result<Literal, Error>,
    pub time: Duration,
}

/// Drives a sequence of statements against one transaction and one context.
#[derive(Debug)]
pub struct Executor {}

impl Executor {
    pub fn new() -> (r: Executor) {
        Executor {}
    }

    /// Processes `stmts` in order inside one transaction on `ds`, giving one
    /// response per statement, timed by the store's clock. A failing statement
    /// does not stop the ones after it; a use statement changes the selection
    /// of those after it. A system clock that reads before the epoch stops the
    /// run with an error.
    pub fn execute(&self, ds: &mut Datastore, ctx: &Context, opt: &mut Options, stmts: &Vec<Statement>) -> (r: Result<Vec<Response>, Error>)
        ensures
            r is Err ==> r == Err::<Vec<Response>, Error>(Error::ClockBeforeEpoch) && old(ds).clock() is System,
            !(old(ds).clock() is System) ==> r is Ok,
            r is Ok ==> {
                &&& r->Ok_0@.len() == stmts@.len()
                &&& forall|k: int| 0 <= k < stmts@.len() ==>
                    #[trigger] r->Ok_0@[k].result == run(ctx.vars@, old(opt).selection(), stmts@).1[k]
                &&& final(opt).selection() == run(ctx.vars@, old(opt).selection(), stmts@).0
            },
            r is Ok && old(ds).clock() is Fake ==> forall|k: int| 0 <= k < stmts@.len() ==>
                (#[trigger] r->Ok_0@[k]).time.millis == 0,
            r is Ok && inc_room(old(ds).clock(), stmts@.len() as int) ==> forall|k: int| 0 <= k < stmts@.len() ==>
                (#[trigger] r->Ok_0@[k]).time.millis == inc_step(old(ds).clock()),
            final(opt).auth == old(opt).auth,
            final(ds)@ == old(ds)@,
    {
        let mut tx = match ds.transaction(true, false) {
            Ok(tx) => tx,
            Err(_) => {
                return Ok(Vec::new());
            },
        };
        let ghost vars = ctx.vars@;
        let ghost sel0 = opt.selection();
        let ghost c0 = ds.clock();
        let ghost n = stmts@.len() as int;
        let mut out: Vec<Response> = Vec::new();
        let mut i: usize = 0;
        assert(2 * (i as int) * inc_step(c0) == 0) by (nonlinear_arith)
            requires
                i == 0,
        ;
        while i < stmts.len()
            invariant
                0 <= i <= stmts@.len(),
                n == stmts@.len(),
                vars == ctx.vars@,
                ds@ == old(ds)@,
                c0 == old(ds).clock(),
                out@.len() == i,
                opt.auth == old(opt).auth,
                sel0 == old(opt).selection(),
                opt.selection() == run(vars, sel0, stmts@.take(i as int)).0,
                forall|k: int| 0 <= k < i ==>
                    #[trigger] out@[k].result == run(vars, sel0, stmts@.take(i as int)).1[k],
                c0 is System ==> ds.clock() is System,
                c0 is Inc ==> ds.clock() is Inc,
                c0 is Fake ==> ds.clock() == c0,
                c0 is Fake ==> forall|k: int| 0 <= k < i ==> (#[trigger] out@[k]).time.millis == 0,
                inc_room(c0, n) ==> ds.clock() is Inc && inc_step(ds.clock()) == inc_step(c0)
                    && inc_value(ds.clock()) == inc_value(c0) + 2 * i * inc_step(c0),
                inc_room(c0, n) ==> forall|k: int| 0 <= k < i ==> (#[trigger] out@[k]).time.millis == inc_step(c0),
            decreases stmts@.len() - i,
        {
            let ghost before = run(vars, sel0, stmts@.take(i as int));
            proof {
                lemma_run_len(vars, sel0, stmts@.take(i as int));
                if inc_room(c0, n) {
                    lemma_room_left(inc_value(c0), inc_step(c0), i as int, n);
                }
            }
            let start = match ds.tick() {
                Ok(t) => t,
                Err(_) => return Err(Error::ClockBeforeEpoch),
            };
            let result = stmts[i].process(ctx, opt);
            let stop = match ds.tick() {
                Ok(t) => t,
                Err(_) => return Err(Error::ClockBeforeEpoch),
            };
            let millis = if stop >= start { stop - start } else { 0 };
            let ghost out0 = out@;
            out.push(Response { result, time: Duration { millis } });
            assert(stmts@.take(i + 1).drop_last() == stmts@.take(i as int));
            assert(stmts@.take(i + 1).last() == stmts@[i as int]);
            let ghost after = run(vars, sel0, stmts@.take(i + 1));
            assert(after.1 == before.1.push(result));
            assert forall|k: int| 0 <= k < i + 1 implies #[trigger] out@[k].result == after.1[k] by {
                if k < i {
                    assert(out@[k].result == before.1[k]);
                }
            }
            assert forall|k: int| 0 <= k < i implies out@[k] == out0[k] by {}
            proof {
                if inc_room(c0, n) {
                    assert(2 * (i + 1) * inc_step(c0) == 2 * i * inc_step(c0) + 2 * inc_step(c0)) by (nonlinear_arith);
                }
            }
            i += 1;
        }
        assert(stmts@.take(i as int) == stmts@);
        let _ = tx.commit(ds);
        Ok(out)
    }
}

/// The value of an incrementing clock, 0 for the other kinds.
pub open spec fn inc_value(c: SizedClock) -> int {
    match c {
        SizedClock::Inc(a) => a.reading().value as int,
        _ => 0,
    }
}

/// The increment of an incrementing clock, 0 for the other kinds.
pub open spec fn inc_step(c: SizedClock) -> int {
    match c {
        SizedClock::Inc(a) => a.step().millis as int,
        _ => 0,
    }
}

/// `c` is an incrementing clock that can advance `2 * n` times without overflow.
pub open spec fn inc_room(c: SizedClock, n: int) -> bool {
    c is Inc && inc_value(c) + 2 * n * inc_step(c) <= u64::MAX
}

proof fn lemma_room_left(t: int, d: int, i: int, n: int)
    requires
        0 <= i < n,
        0 <= d,
        0 <= t,
        t + 2 * n * d <= u64::MAX,
    ensures
        t + 2 * i * d + 2 * d <= u64::MAX,
{
    assert(2 * i * d + 2 * d <= 2 * n * d) by (nonlinear_arith)
        requires
            0 <= i < n,
            0 <= d,
    ;
}

impl Datastore {
    /// Processes already parsed statements for a session, with `vars` bound
    /// below the session's scope: one response per statement, in order.
    pub fn process(&mut self, ast: &Vec<Statement>, sess: &Session, vars: Variables) -> (r: Result<Vec<Response>, Error>)
        ensures
            r is Err ==> r == Err::<Vec<Response>, Error>(Error::ClockBeforeEpoch) && old(self).clock() is System,
            !(old(self).clock() is System) ==> r is Ok,
            r is Ok ==> r->Ok_0@.len() == ast@.len() && forall|k: int| 0 <= k < ast@.len() ==>
                #[trigger] r->Ok_0@[k].result == run(vars@, sess.selection(), ast@).1[k],
            r is Ok && old(self).clock() is Fake ==> forall|k: int| 0 <= k < ast@.len() ==>
                (#[trigger] r->Ok_0@[k]).time.millis == 0,
            r is Ok && inc_room(old(self).clock(), ast@.len() as int) ==> forall|k: int| 0 <= k < ast@.len() ==>
                (#[trigger] r->Ok_0@[k]).time.millis == inc_step(old(self).clock()),
            final(self)@ == old(self)@,
    {
        let mut opt = sess.options();
        let exe = Executor::new();
        let ctx = Context::new();
        let ctx = sess.context(ctx);
        let ghost bound = vars@;
        let ctx = ctx.attach(vars);
        assert(ctx.vars@ == bound);
        exe.execute(self, &ctx, &mut opt, ast)
    }

    /// Parses `txt` and processes its statements for a session: a parse
    /// error where the text is not in the grammar, and no statement runs;
    /// else one response per statement, in order.
    pub fn execute(&mut self, txt: &str, sess: &Session, vars: Variables) -> (r: Result<Vec<Response>, Error>)
        ensures
            parse_query(txt@) is None ==> r == Err::<Vec<Response>, Error>(Error::Parse),
            parse_query(txt@) is Some && r is Err ==> r == Err::<Vec<Response>, Error>(Error::ClockBeforeEpoch)
                && old(self).clock() is System,
            parse_query(txt@) is Some && !(old(self).clock() is System) ==> r is Ok,
            parse_query(txt@) is Some && r is Ok ==> r->Ok_0@.len() == parse_query(txt@)->0.len()
                && forall|k: int| 0 <= k < r->Ok_0@.len() ==>
                    #[trigger] r->Ok_0@[k].result == Ok::<Literal, Error>(Literal::Nothing),
            parse_query(txt@) is Some && r is Ok && old(self).clock() is Fake ==> forall|k: int|
                0 <= k < r->Ok_0@.len() ==> (#[trigger] r->Ok_0@[k]).time.millis == 0,
            parse_query(txt@) is Some && r is Ok && inc_room(old(self).clock(), parse_query(txt@)->0.len() as int)
                ==> forall|k: int| 0 <= k < r->Ok_0@.len() ==>
                    (#[trigger] r->Ok_0@[k]).time.millis == inc_step(old(self).clock()),
            final(self)@ == old(self)@,
    {
        let ast = match parse(txt) {
            Ok(ast) => ast,
            Err(_) => return Err(Error::Parse),
        };
        let ghost sel = sess.selection();
        proof { lemma_run_uses(vars@, sel, ast@); }
        self.process(&ast, sess, vars)
    }
}

/// Use statements alone always succeed.
proof fn lemma_run_uses(vars: Seq<(String, Literal)>, sel: Selection, stmts: Seq<Statement>)
    requires
        forall|k: int| 0 <= k < stmts.len() ==> #[trigger] stmts[k] is Use,
    ensures
        run(vars, sel, stmts).1.len() == stmts.len(),
        forall|k: int| 0 <= k < stmts.len() ==> #[trigger] run(vars, sel, stmts).1[k] == Ok::<Literal, Error>(Literal::Nothing),
    decreases stmts.len(),
{
    if stmts.len() > 0 {
        let p = stmts.drop_last();
        assert forall|k: int| 0 <= k < p.len() implies #[trigger] p[k] is Use by {
            assert(p[k] == stmts[k]);
        }
        lemma_run_uses(vars, sel, p);
        assert(stmts.last() == stmts[stmts.len() - 1]);
    }
}

} // verus!
