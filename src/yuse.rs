use vstd::prelude::*;
use crate::dbs::{Error, Literal, Options, Selection};
use crate::text::{chars_of, push_all, push_char, string_of};

verus! {

/// Selection of the active namespace and/or database.
#[derive(Clone, Debug, Default, PartialEq, Eq)]
pub struct UseStatement {
    pub ns: Option<String>,
    pub db: Option<String>,
}

/// Why a statement text was not accepted.
#[derive(Clone, Copy, Debug, PartialEq, Eq, Structural)]
pub enum ParseError {
    /// The text does not start with a statement of the grammar.
    Invalid,
}

/// The characters of an optional string.
pub open spec fn opt_view(o: Option<String>) -> Option<Seq<char>> {
    match o {
        Some(s) => Some(s@),
        None => None,
    }
}

impl View for UseStatement {
    type V = (Option<Seq<char>>, Option<Seq<char>>);

    open spec fn view(&self) -> Self::V {
        (opt_view(self.ns), opt_view(self.db))
    }
}

pub open spec fn is_space(c: char) -> bool {
    c == ' ' || c == '\t' || c == '\n' || c == '\r'
}

pub open spec fn is_ident_char(c: char) -> bool {
    let u = c as u32;
    (48 <= u <= 57) || (65 <= u <= 90) || (97 <= u <= 122) || u == 95
}

/// `c` is the upper-case keyword letter `k`, in either case.
pub open spec fn eq_no_case(c: char, k: char) -> bool {
    c == k || (65 <= k as u32 <= 90 && c as u32 == k as u32 + 32)
}

/// The number of whitespace characters starting at `i`.
pub open spec fn space_run(s: Seq<char>, i: int) -> int
    decreases s.len() - i,
{
    if 0 <= i < s.len() && is_space(s[i]) {
        1 + space_run(s, i + 1)
    } else {
        0
    }
}

/// The number of identifier characters starting at `i`.
pub open spec fn ident_run(s: Seq<char>, i: int) -> int
    decreases s.len() - i,
{
    if 0 <= i < s.len() && is_ident_char(s[i]) {
        1 + ident_run(s, i + 1)
    } else {
        0
    }
}

/// The keyword `kw` (upper case) stands at `i`, in any letter case.
pub open spec fn keyword_at(s: Seq<char>, i: int, kw: Seq<char>) -> bool {
    &&& 0 <= i
    &&& i + kw.len() <= s.len()
    &&& forall|j: int| 0 <= j < kw.len() ==> #[trigger] eq_no_case(s[i + j], kw[j])
}

pub open spec fn kw_use() -> Seq<char> {
    seq!['U', 'S', 'E']
}

pub open spec fn kw_namespace() -> Seq<char> {
    seq!['N', 'A', 'M', 'E', 'S', 'P', 'A', 'C', 'E']
}

pub open spec fn kw_ns() -> Seq<char> {
    seq!['N', 'S']
}

pub open spec fn kw_database() -> Seq<char> {
    seq!['D', 'A', 'T', 'A', 'B', 'A', 'S', 'E']
}

pub open spec fn kw_db() -> Seq<char> {
    seq!['D', 'B']
}

/// The length of the namespace keyword at `i` (long form first), or 0.
pub open spec fn ns_kw_len(s: Seq<char>, i: int) -> int {
    if keyword_at(s, i, kw_namespace()) {
        9
    } else if keyword_at(s, i, kw_ns()) {
        2
    } else {
        0
    }
}

/// The length of the database keyword at `i` (long form first), or 0.
pub open spec fn db_kw_len(s: Seq<char>, i: int) -> int {
    if keyword_at(s, i, kw_database()) {
        8
    } else if keyword_at(s, i, kw_db()) {
        2
    } else {
        0
    }
}

/// A clause whose keyword of length `k` stands at `i`: the keyword, whitespace,
/// and an identifier, whose bounds are returned.
pub open spec fn clause(s: Seq<char>, i: int, k: int) -> Option<(int, int)> {
    let a = i + k + space_run(s, i + k);
    if k > 0 && space_run(s, i + k) > 0 && ident_run(s, a) > 0 {
        Some((a, a + ident_run(s, a)))
    } else {
        None
    }
}

/// Where the text after `USE` and its whitespace starts.
pub open spec fn use_prefix(s: Seq<char>) -> Option<int> {
    if keyword_at(s, 0, kw_use()) && space_run(s, 3) > 0 {
        Some(3 + space_run(s, 3))
    } else {
        None
    }
}

/// A use statement naming both a namespace and a database at the start of `s`:
/// where it ends, and the names.
pub open spec fn parse_both(s: Seq<char>) -> Option<(int, (Option<Seq<char>>, Option<Seq<char>>))> {
    match use_prefix(s) {
        Some(p) => match clause(s, p, ns_kw_len(s, p)) {
            Some((a, b)) => {
                let q = b + space_run(s, b);
                match clause(s, q, db_kw_len(s, q)) {
                    Some((c, d)) if space_run(s, b) > 0 => Some(
                        (d, (Some(s.subrange(a, b)), Some(s.subrange(c, d)))),
                    ),
                    _ => None,
                }
            },
            None => None,
        },
        None => None,
    }
}

/// A use statement naming a namespace at the start of `s`.
pub open spec fn parse_ns(s: Seq<char>) -> Option<(int, (Option<Seq<char>>, Option<Seq<char>>))> {
    match use_prefix(s) {
        Some(p) => match clause(s, p, ns_kw_len(s, p)) {
            Some((a, b)) => Some((b, (Some(s.subrange(a, b)), None))),
            None => None,
        },
        None => None,
    }
}

/// A use statement naming a database at the start of `s`.
pub open spec fn parse_db(s: Seq<char>) -> Option<(int, (Option<Seq<char>>, Option<Seq<char>>))> {
    match use_prefix(s) {
        Some(p) => match clause(s, p, db_kw_len(s, p)) {
            Some((c, d)) => Some((d, (None, Some(s.subrange(c, d))))),
            None => None,
        },
        None => None,
    }
}

/// The grammar of a use statement at the start of `s`: the form with both
/// clauses is tried first, then the namespace clause alone, then the database
/// clause alone.
pub open spec fn parse_use(s: Seq<char>) -> Option<(int, (Option<Seq<char>>, Option<Seq<char>>))> {
    if parse_both(s) is Some {
        parse_both(s)
    } else if parse_ns(s) is Some {
        parse_ns(s)
    } else {
        parse_db(s)
    }
}

/// The canonical text of a statement with the given namespace and database.
pub open spec fn format_use(v: (Option<Seq<char>>, Option<Seq<char>>)) -> Seq<char> {
    let n = match v.0 {
        Some(ns) => seq![' ', 'N', 'S', ' '] + ns,
        None => Seq::empty(),
    };
    let d = match v.1 {
        Some(db) => seq![' ', 'D', 'B', ' '] + db,
        None => Seq::empty(),
    };
    kw_use() + n + d
}

fn ident_char(c: char) -> (r: bool)
    ensures
        r == is_ident_char(c),
{
    let u = c as u32;
    (48 <= u && u <= 57) || (65 <= u && u <= 90) || (97 <= u && u <= 122) || u == 95
}

pub(crate) fn space_len(s: &Vec<char>, i: usize) -> (r: usize)
    requires
        i <= s@.len(),
    ensures
        r == space_run(s@, i as int),
        i + r <= s@.len(),
{
    let mut j: usize = i;
    while j < s.len() && (s[j] == ' ' || s[j] == '\t' || s[j] == '\n' || s[j] == '\r')
        invariant
            i <= j <= s@.len(),
            space_run(s@, i as int) == (j - i) + space_run(s@, j as int),
        decreases s@.len() - j,
    {
        j += 1;
    }
    j - i
}

fn ident_len(s: &Vec<char>, i: usize) -> (r: usize)
    requires
        i <= s@.len(),
    ensures
        r == ident_run(s@, i as int),
        i + r <= s@.len(),
{
    let mut j: usize = i;
    while j < s.len() && ident_char(s[j])
        invariant
            i <= j <= s@.len(),
            ident_run(s@, i as int) == (j - i) + ident_run(s@, j as int),
        decreases s@.len() - j,
    {
        j += 1;
    }
    j - i
}

fn keyword(s: &Vec<char>, i: usize, kw: &Vec<char>) -> (r: bool)
    requires
        forall|j: int| 0 <= j < kw@.len() ==> 65 <= #[trigger] kw@[j] as u32 <= 90,
    ensures
        r == keyword_at(s@, i as int, kw@),
{
    if i > s.len() || kw.len() > s.len() - i {
        return false;
    }
    let mut j: usize = 0;
    while j < kw.len()
        invariant
            i + kw@.len() <= s@.len() <= usize::MAX,
            0 <= j <= kw@.len(),
            forall|k: int| 0 <= k < kw@.len() ==> 65 <= #[trigger] kw@[k] as u32 <= 90,
            forall|k: int| 0 <= k < j ==> #[trigger] eq_no_case(s@[i + k], kw@[k]),
        decreases kw@.len() - j,
    {
        let c = s[i + j];
        let k = kw[j];
        if !(c == k || (c as u32) == (k as u32) + 32) {
            assert(!eq_no_case(s@[i + j], kw@[j as int]));
            return false;
        }
        j += 1;
    }
    true
}

fn ns_keyword(s: &Vec<char>, i: usize) -> (r: usize)
    ensures
        r == ns_kw_len(s@, i as int),
{
    let long = vec!['N', 'A', 'M', 'E', 'S', 'P', 'A', 'C', 'E'];
    let short = vec!['N', 'S'];
    assert(long@ == kw_namespace());
    assert(short@ == kw_ns());
    if keyword(s, i, &long) {
        9
    } else if keyword(s, i, &short) {
        2
    } else {
        0
    }
}

fn db_keyword(s: &Vec<char>, i: usize) -> (r: usize)
    ensures
        r == db_kw_len(s@, i as int),
{
    let long = vec!['D', 'A', 'T', 'A', 'B', 'A', 'S', 'E'];
    let short = vec!['D', 'B'];
    assert(long@ == kw_database());
    assert(short@ == kw_db());
    if keyword(s, i, &long) {
        8
    } else if keyword(s, i, &short) {
        2
    } else {
        0
    }
}

fn clause_at(s: &Vec<char>, i: usize, k: usize) -> (r: Option<(usize, usize)>)
    requires
        k > 0 ==> i + k <= s@.len(),
    ensures
        r is Some <==> clause(s@, i as int, k as int) is Some,
        r is Some ==> clause(s@, i as int, k as int) == Some(((r->0).0 as int, (r->0).1 as int)),
        r is Some ==> (r->0).0 <= (r->0).1 <= s@.len(),
{
    let _len = s.len();
    if k == 0 {
        return None;
    }
    let sp = space_len(s, i + k);
    if sp == 0 {
        return None;
    }
    let a = i + k + sp;
    let n = ident_len(s, a);
    if n == 0 {
        None
    } else {
        Some((a, a + n))
    }
}

fn use_start(s: &Vec<char>) -> (r: Option<usize>)
    ensures
        r is Some <==> use_prefix(s@) is Some,
        r is Some ==> use_prefix(s@) == Some(r->0 as int) && r->0 <= s@.len(),
{
    let _len = s.len();
    let kw = vec!['U', 'S', 'E'];
    assert(kw@ == kw_use());
    if !keyword(s, 0, &kw) {
        return None;
    }
    let sp = space_len(s, 3);
    if sp == 0 {
        None
    } else {
        Some(3 + sp)
    }
}

fn both(s: &Vec<char>) -> (r: Option<(usize, UseStatement)>)
    ensures
        r is Some <==> parse_both(s@) is Some,
        r is Some ==> parse_both(s@) == Some(((r->0).0 as int, (r->0).1@)) && (r->0).0 <= s@.len(),
{
    let p = match use_start(s) {
        Some(p) => p,
        None => return None,
    };
    let (a, b) = match clause_at(s, p, ns_keyword(s, p)) {
        Some(ab) => ab,
        None => return None,
    };
    let _len = s.len();
    let sp = space_len(s, b);
    if sp == 0 {
        return None;
    }
    let q = b + sp;
    let (c, d) = match clause_at(s, q, db_keyword(s, q)) {
        Some(cd) => cd,
        None => return None,
    };
    Some((d, UseStatement { ns: Some(string_of(s, a, b)), db: Some(string_of(s, c, d)) }))
}

fn ns(s: &Vec<char>) -> (r: Option<(usize, UseStatement)>)
    ensures
        r is Some <==> parse_ns(s@) is Some,
        r is Some ==> parse_ns(s@) == Some(((r->0).0 as int, (r->0).1@)) && (r->0).0 <= s@.len(),
{
    let p = match use_start(s) {
        Some(p) => p,
        None => return None,
    };
    let (a, b) = match clause_at(s, p, ns_keyword(s, p)) {
        Some(ab) => ab,
        None => return None,
    };
    Some((b, UseStatement { ns: Some(string_of(s, a, b)), db: None }))
}

fn db(s: &Vec<char>) -> (r: Option<(usize, UseStatement)>)
    ensures
        r is Some <==> parse_db(s@) is Some,
        r is Some ==> parse_db(s@) == Some(((r->0).0 as int, (r->0).1@)) && (r->0).0 <= s@.len(),
{
    let p = match use_start(s) {
        Some(p) => p,
        None => return None,
    };
    let (c, d) = match clause_at(s, p, db_keyword(s, p)) {
        Some(cd) => cd,
        None => return None,
    };
    Some((d, UseStatement { ns: None, db: Some(string_of(s, c, d)) }))
}

/// A use statement at the start of `s`, and where it ends.
pub fn use_statement(s: &Vec<char>) -> (r: Option<(usize, UseStatement)>)
    ensures
        r is Some <==> parse_use(s@) is Some,
        r is Some ==> parse_use(s@) == Some(((r->0).0 as int, (r->0).1@)) && (r->0).0 <= s@.len(),
{
    match both(s) {
        Some(x) => Some(x),
        None => match ns(s) {
            Some(x) => Some(x),
            None => db(s),
        },
    }
}

/// Parses a use statement at the start of `i`, returning the text after it
/// and the statement.
pub fn yuse(i: &str) -> (r: Result<(String, UseStatement), ParseError>)
    ensures
        match parse_use(i@) {
            None => r == Err::<(String, UseStatement), ParseError>(ParseError::Invalid),
            Some((end, v)) => {
                &&& r is Ok
                &&& (r->Ok_0).0@ == i@.subrange(end, i@.len() as int)
                &&& (r->Ok_0).1@ == v
            },
        },
{
    let s = chars_of(i);
    match use_statement(&s) {
        Some((end, stmt)) => Ok((string_of(&s, end, s.len()), stmt)),
        None => Err(ParseError::Invalid),
    }
}

/// The selection after a use statement naming `v`: each name it holds
/// replaces the active one, the others stay.
pub open spec fn apply_use(sel: Selection, v: (Option<Seq<char>>, Option<Seq<char>>)) -> Selection {
    (
        if v.0 is Some { v.0 } else { sel.0 },
        if v.1 is Some { v.1 } else { sel.1 },
    )
}

/// Applying a use statement twice selects what applying it once does.
pub proof fn lemma_use_idempotent(sel: Selection, v: (Option<Seq<char>>, Option<Seq<char>>))
    ensures
        apply_use(apply_use(sel, v), v) == apply_use(sel, v),
{
}

impl UseStatement {
    /// Makes the statement's namespace and database the active ones.
    pub fn process(&self, opt: &mut Options) -> (r: Result<Literal, Error>)
        ensures
            final(opt).selection() == apply_use(old(opt).selection(), self@),
            final(opt).auth == old(opt).auth,
            r == Ok::<Literal, Error>(Literal::Nothing),
    {
        if let Some(ns) = &self.ns {
            opt.ns = Some(ns.clone());
        }
        if let Some(db) = &self.db {
            opt.db = Some(db.clone());
        }
        Ok(Literal::Nothing)
    }

    /// The canonical text of the statement.
    pub fn to_string(&self) -> (r: String)
        ensures
            r@ == format_use(self@),
    {
        let mut r = String::new();
        push_char(&mut r, 'U');
        push_char(&mut r, 'S');
        push_char(&mut r, 'E');
        assert(r@ == kw_use());
        let ghost after_use = r@;
        if let Some(ns) = &self.ns {
            push_char(&mut r, ' ');
            push_char(&mut r, 'N');
            push_char(&mut r, 'S');
            push_char(&mut r, ' ');
            push_all(&mut r, ns);
            assert(r@ == after_use + (seq![' ', 'N', 'S', ' '] + ns@));
        } else {
            assert(r@ == after_use + Seq::<char>::empty());
        }
        let ghost after_ns = r@;
        if let Some(db) = &self.db {
            push_char(&mut r, ' ');
            push_char(&mut r, 'D');
            push_char(&mut r, 'B');
            push_char(&mut r, ' ');
            push_all(&mut r, db);
            assert(r@ == after_ns + (seq![' ', 'D', 'B', ' '] + db@));
        } else {
            assert(r@ == after_ns + Seq::<char>::empty());
        }
        r
    }
}

/// A name made of identifier characters only, and at least one of them.
pub open spec fn valid_ident(x: Seq<char>) -> bool {
    x.len() > 0 && forall|j: int| 0 <= j < x.len() ==> #[trigger] is_ident_char(x[j])
}

/// A statement that the grammar can express: it names something, and every
/// name it holds is an identifier.
pub open spec fn valid_use(v: (Option<Seq<char>>, Option<Seq<char>>)) -> bool {
    &&& (v.0 is Some || v.1 is Some)
    &&& (v.0 is Some ==> valid_ident(v.0->0))
    &&& (v.1 is Some ==> valid_ident(v.1->0))
}

proof fn lemma_ident_run(s: Seq<char>, i: int, k: int)
    requires
        0 <= i,
        0 <= k,
        i + k <= s.len(),
        forall|j: int| i <= j < i + k ==> #[trigger] is_ident_char(s[j]),
        i + k == s.len() || !is_ident_char(s[i + k]),
    ensures
        ident_run(s, i) == k,
    decreases k,
{
    if k > 0 {
        lemma_ident_run(s, i + 1, k - 1);
    }
}

proof fn lemma_single_space(s: Seq<char>, i: int)
    requires
        0 <= i < s.len(),
        s[i] == ' ',
        i + 1 == s.len() || !is_space(s[i + 1]),
    ensures
        space_run(s, i) == 1,
{
    assert(space_run(s, i + 1) == 0);
}

proof fn lemma_keyword_letters()
    ensures
        kw_use() == seq!['U', 'S', 'E'],
        kw_namespace()[0] == 'N' && kw_namespace()[1] == 'A' && kw_namespace().len() == 9,
        kw_ns()[0] == 'N' && kw_ns()[1] == 'S' && kw_ns().len() == 2,
        kw_database()[0] == 'D' && kw_database()[1] == 'A' && kw_database().len() == 8,
        kw_db()[0] == 'D' && kw_db()[1] == 'B' && kw_db().len() == 2,
{
}

proof fn lemma_use_prefix(f: Seq<char>)
    requires
        f.len() > 4,
        f[0] == 'U' && f[1] == 'S' && f[2] == 'E' && f[3] == ' ',
        !is_space(f[4]),
    ensures
        use_prefix(f) == Some(4int),
{
    assert(keyword_at(f, 0, kw_use()));
    lemma_single_space(f, 3);
}

/// A clause with keyword `k` at `i`, one space, and the identifier `x` that
/// runs to `e`.
proof fn lemma_clause(f: Seq<char>, i: int, k: int, x: Seq<char>, e: int)
    requires
        0 <= i,
        k > 0,
        valid_ident(x),
        e == i + k + 1 + x.len(),
        e <= f.len(),
        f[i + k] == ' ',
        forall|j: int| 0 <= j < x.len() ==> f[i + k + 1 + j] == #[trigger] x[j],
        e == f.len() || !is_ident_char(f[e]),
    ensures
        clause(f, i, k) == Some((i + k + 1, e)),
        f.subrange(i + k + 1, e) == x,
{
    assert(f[i + k + 1 + 0] == x[0]);
    assert(is_ident_char(x[0]));
    lemma_single_space(f, i + k);
    assert forall|j: int| i + k + 1 <= j < e implies #[trigger] is_ident_char(f[j]) by {
        assert(f[j] == x[j - (i + k + 1)]);
    }
    lemma_ident_run(f, i + k + 1, x.len() as int);
    assert(f.subrange(i + k + 1, e) == x);
}

#[verifier::spinoff_prover]
proof fn lemma_round_trip_both(n: Seq<char>, d: Seq<char>)
    requires
        valid_ident(n),
        valid_ident(d),
    ensures
        parse_use(format_use((Some(n), Some(d)))) == Some(
            (format_use((Some(n), Some(d))).len() as int, (Some(n), Some(d))),
        ),
{
    let f = format_use((Some(n), Some(d)));
    let b: int = 7 + n.len() as int;
    let q = b + 1;
    assert(f =~= kw_use() + (seq![' ', 'N', 'S', ' '] + n) + (seq![' ', 'D', 'B', ' '] + d));
    assert(f.len() == q + 3 + d.len());
    assert(f[0] == 'U' && f[1] == 'S' && f[2] == 'E' && f[3] == ' ');
    assert(f[4] == 'N' && f[5] == 'S' && f[6] == ' ');
    lemma_use_prefix(f);
    lemma_keyword_letters();
    assert(!eq_no_case(f[4int + 1], kw_namespace()[1]));
    assert(!keyword_at(f, 4, kw_namespace()));
    assert(eq_no_case(f[4int + 0], kw_ns()[0]));
    assert(eq_no_case(f[4int + 1], kw_ns()[1]));
    assert(keyword_at(f, 4, kw_ns()));
    assert(ns_kw_len(f, 4) == 2);
    assert(f[b] == ' ' && f[b + 1] == 'D' && f[b + 2] == 'B' && f[b + 3] == ' ');
    assert(forall|j: int| 0 <= j < n.len() ==> f[7 + j] == #[trigger] n[j]);
    lemma_clause(f, 4, 2, n, b);
    lemma_single_space(f, b);
    assert(!eq_no_case(f[q + 1], kw_database()[1]));
    assert(keyword_at(f, q, kw_db()));
    assert(db_kw_len(f, q) == 2);
    assert(forall|j: int| 0 <= j < d.len() ==> f[q + 3 + j] == #[trigger] d[j]);
    lemma_clause(f, q, 2, d, f.len() as int);
    assert(parse_both(f) == Some((f.len() as int, (Some(n), Some(d)))));
}

#[verifier::spinoff_prover]
proof fn lemma_round_trip_ns(n: Seq<char>)
    requires
        valid_ident(n),
    ensures
        parse_use(format_use((Some(n), None))) == Some(
            (format_use((Some(n), None)).len() as int, (Some(n), None::<Seq<char>>)),
        ),
{
    let f = format_use((Some(n), None));
    let b: int = 7 + n.len() as int;
    assert(f =~= kw_use() + (seq![' ', 'N', 'S', ' '] + n) + Seq::<char>::empty());
    assert(f.len() == b);
    assert(f[0] == 'U' && f[1] == 'S' && f[2] == 'E' && f[3] == ' ');
    assert(f[4] == 'N' && f[5] == 'S' && f[6] == ' ');
    lemma_use_prefix(f);
    lemma_keyword_letters();
    assert(!eq_no_case(f[4int + 1], kw_namespace()[1]));
    assert(!keyword_at(f, 4, kw_namespace()));
    assert(eq_no_case(f[4int + 0], kw_ns()[0]));
    assert(eq_no_case(f[4int + 1], kw_ns()[1]));
    assert(keyword_at(f, 4, kw_ns()));
    assert(ns_kw_len(f, 4) == 2);
    assert(forall|j: int| 0 <= j < n.len() ==> f[7 + j] == #[trigger] n[j]);
    lemma_clause(f, 4, 2, n, b);
    assert(space_run(f, b) == 0);
    assert(parse_both(f) is None);
    assert(parse_ns(f) == Some((b, (Some(n), None::<Seq<char>>))));
}

#[verifier::spinoff_prover]
proof fn lemma_round_trip_db(d: Seq<char>)
    requires
        valid_ident(d),
    ensures
        parse_use(format_use((None, Some(d)))) == Some(
            (format_use((None, Some(d))).len() as int, (None::<Seq<char>>, Some(d))),
        ),
{
    let f = format_use((None, Some(d)));
    assert(f =~= kw_use() + Seq::<char>::empty() + (seq![' ', 'D', 'B', ' '] + d));
    assert(f.len() == 7 + d.len());
    assert(f[0] == 'U' && f[1] == 'S' && f[2] == 'E' && f[3] == ' ');
    assert(f[4] == 'D' && f[5] == 'B' && f[6] == ' ');
    lemma_use_prefix(f);
    lemma_keyword_letters();
    assert(!eq_no_case(f[4int + 0], kw_namespace()[0]));
    assert(!keyword_at(f, 4, kw_namespace()));
    assert(!eq_no_case(f[4int + 0], kw_ns()[0]));
    assert(!keyword_at(f, 4, kw_ns()));
    assert(ns_kw_len(f, 4) == 0);
    assert(parse_both(f) is None);
    assert(parse_ns(f) is None);
    assert(!eq_no_case(f[5], kw_database()[1]));
    assert(keyword_at(f, 4, kw_db()));
    assert(db_kw_len(f, 4) == 2);
    assert(forall|j: int| 0 <= j < d.len() ==> f[7 + j] == #[trigger] d[j]);
    lemma_clause(f, 4, 2, d, f.len() as int);
}

/// Formatting a statement that the grammar can express and parsing the text
/// gives back the same statement, and the parse consumes the whole text.
pub proof fn lemma_round_trip(v: (Option<Seq<char>>, Option<Seq<char>>))
    requires
        valid_use(v),
    ensures
        parse_use(format_use(v)) == Some((format_use(v).len() as int, v)),
{
    match (v.0, v.1) {
        (Some(n), Some(d)) => lemma_round_trip_both(n, d),
        (Some(n), None) => lemma_round_trip_ns(n),
        (None, Some(d)) => lemma_round_trip_db(d),
        (None, None) => {},
    }
}

} // verus!
