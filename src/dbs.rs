use vstd::prelude::*;
use crate::yuse::{opt_view, UseStatement};

verus! {

/// A value that a statement produces or that a variable holds.
#[derive(Debug, PartialEq, Eq)]
pub enum Literal {
    Nothing,
    Bool(bool),
    Int(i64),
    Strand(String),
}

impl Literal {
    /// A copy of the value.
    pub fn duplicate(&self) -> (r: Literal)
        ensures
            r == *self,
    {
        match self {
            Literal::Nothing => Literal::Nothing,
            Literal::Bool(b) => Literal::Bool(*b),
            Literal::Int(n) => Literal::Int(*n),
            Literal::Strand(s) => Literal::Strand(s.clone()),
        }
    }
}

/// What can go wrong while opening a store, running a transaction, or
/// processing a statement.
#[derive(Clone, Copy, Debug, PartialEq, Eq, Structural)]
pub enum Error {
    /// The statement text is not in the grammar.
    Parse,
    /// A statement refers to a variable that is not bound.
    UndefinedVariable,
    /// The connection string names no known backend.
    InvalidPath,
    /// The connection string names a backend that this build does not hold.
    BackendUnavailable,
    /// A write was attempted in a read-only transaction.
    TxReadonly,
    /// The transaction was already committed or cancelled.
    TxFinished,
    /// Another transaction committed first.
    TxConflict,
    /// Another transaction holds the store's serialization lock.
    TxLocked,
    /// The system clock reads earlier than the Unix epoch.
    ClockBeforeEpoch,
}

/// The identity a statement runs as.
#[derive(Clone, Copy, Debug, PartialEq, Eq, Structural)]
pub enum Auth {
    No,
    Kv,
    Ns,
    Db,
}

/// The names bound for a run, each name with its value, later bindings
/// shadowing earlier ones.
pub type Variables = Vec<(String, Literal)>;

/// The value bound last to `name` among `vars`.
pub open spec fn lookup(vars: Seq<(String, Literal)>, name: Seq<char>) -> Option<Literal>
    decreases vars.len(),
{
    if vars.len() == 0 {
        None
    } else if vars.last().0@ == name {
        Some(vars.last().1)
    } else {
        lookup(vars.drop_last(), name)
    }
}

/// The scope a run of statements sees: its bound variables.
#[derive(Debug)]
pub struct Context {
    pub vars: Variables,
}

impl Context {
    pub fn new() -> (r: Context)
        ensures
            r.vars@.len() == 0,
    {
        Context { vars: Vec::new() }
    }

    /// A child scope holding the bindings of this one, then `vars`, which
    /// shadow them.
    pub fn attach(self, vars: Variables) -> (r: Context)
        ensures
            r.vars@ == self.vars@ + vars@,
    {
        let mut all = self.vars;
        let mut more = vars;
        all.append(&mut more);
        Context { vars: all }
    }

    /// The value bound last to `name`.
    pub fn value(&self, name: &String) -> (r: Option<Literal>)
        ensures
            r == lookup(self.vars@, name@),
    {
        let mut i: usize = self.vars.len();
        assert(self.vars@.take(i as int) == self.vars@);
        while i > 0
            invariant
                0 <= i <= self.vars@.len(),
                lookup(self.vars@, name@) == lookup(self.vars@.take(i as int), name@),
            decreases i,
        {
            assert(self.vars@.take(i as int).drop_last() == self.vars@.take(i - 1));
            if self.vars[i - 1].0 == *name {
                return Some(self.vars[i - 1].1.duplicate());
            }
            i -= 1;
        }
        None
    }
}

/// The active namespace and database.
pub type Selection = (Option<Seq<char>>, Option<Seq<char>>);

/// Per-run scoping: who runs, and against which namespace and database.
#[derive(Debug)]
pub struct Options {
    pub auth: Auth,
    pub ns: Option<String>,
    pub db: Option<String>,
}

impl Options {
    pub open spec fn selection(&self) -> Selection {
        (opt_view(self.ns), opt_view(self.db))
    }

    pub fn new(auth: Auth) -> (r: Options)
        ensures
            r.auth == auth,
            r.selection() == (None::<Seq<char>>, None::<Seq<char>>),
    {
        Options { auth, ns: None, db: None }
    }
}

/// A client's established identity and scope.
#[derive(Debug)]
pub struct Session {
    pub au: Auth,
    pub ns: Option<String>,
    pub db: Option<String>,
}

fn clone_opt(o: &Option<String>) -> (r: Option<String>)
    ensures
        opt_view(r) == opt_view(*o),
{
    match o {
        Some(s) => Some(s.clone()),
        None => None,
    }
}

/// The namespace and database a session selects.
pub open spec fn opt_sel(ns: Option<String>, db: Option<String>) -> Selection {
    (opt_view(ns), opt_view(db))
}

impl Session {
    pub open spec fn selection(&self) -> Selection {
        opt_sel(self.ns, self.db)
    }

    pub fn ns(&self) -> (r: Option<String>)
        ensures
            opt_view(r) == opt_view(self.ns),
    {
        clone_opt(&self.ns)
    }

    pub fn db(&self) -> (r: Option<String>)
        ensures
            opt_view(r) == opt_view(self.db),
    {
        clone_opt(&self.db)
    }

    /// The run options of this session: its identity, namespace and database.
    pub fn options(&self) -> (r: Options)
        ensures
            r.auth == self.au,
            r.selection() == (opt_view(self.ns), opt_view(self.db)),
    {
        Options { auth: self.au, ns: self.ns(), db: self.db() }
    }

    /// The scope for a run of this session, below `parent`.
    pub fn context(&self, parent: Context) -> (r: Context)
        ensures
            r.vars@ == parent.vars@,
    {
        parent
    }
}

} // verus!
