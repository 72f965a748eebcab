use vstd::prelude::*;
use crate::exe::Statement;
use crate::text::{chars_of, tail_chars};
use crate::yuse::{parse_use, space_len, space_run, use_statement, ParseError};

verus! {

/// What a parsed use statement names: a namespace and a database.
pub type UseView = (Option<Seq<char>>, Option<Seq<char>>);

/// The statements of `s` from position `i`: use statements, each followed by
/// optional whitespace and then a `;` or the end of the text. Whitespace alone
/// holds no statement.
pub open spec fn parse_query_from(s: Seq<char>, i: int) -> Option<Seq<UseView>>
    decreases s.len() - i,
{
    if i < 0 || i > s.len() {
        None
    } else {
        let j = i + space_run(s, i);
        if j >= s.len() {
            Some(Seq::empty())
        } else {
            match parse_use(s.subrange(j, s.len() as int)) {
                None => None,
                Some((end, v)) => {
                    let k = j + end;
                    let k2 = k + space_run(s, k);
                    if k2 >= s.len() {
                        Some(seq![v])
                    } else if s[k2] == ';' && k2 + 1 > i {
                        match parse_query_from(s, k2 + 1) {
                            Some(rest) => Some(seq![v] + rest),
                            None => None,
                        }
                    } else {
                        None
                    }
                },
            }
        }
    }
}

/// The statements of a whole text.
pub open spec fn parse_query(s: Seq<char>) -> Option<Seq<UseView>> {
    parse_query_from(s, 0)
}

/// `q` holds, in order, the use statements that `vs` describes.
pub open spec fn uses_match(q: Seq<Statement>, vs: Seq<UseView>) -> bool {
    &&& q.len() == vs.len()
    &&& forall|k: int| 0 <= k < q.len() ==> #[trigger] q[k] is Use && (q[k]->Use_0)@ == vs[k]
}

/// Parses a text into its statements, in order.
pub fn parse(txt: &str) -> (r: Result<Vec<Statement>, ParseError>)
    ensures
        match parse_query(txt@) {
            None => r == Err::<Vec<Statement>, ParseError>(ParseError::Invalid),
            Some(vs) => r is Ok && uses_match(r->Ok_0@, vs),
        },
{
    let s = chars_of(txt);
    let mut out: Vec<Statement> = Vec::new();
    let ghost acc: Seq<UseView> = Seq::empty();
    let mut i: usize = 0;
    loop
        invariant
            0 <= i <= s@.len(),
            s@ == txt@,
            uses_match(out@, acc),
            parse_query(s@) == match parse_query_from(s@, i as int) {
                Some(rest) => Some(acc + rest),
                None => None,
            },
        decreases s@.len() - i,
    {
        let j = i + space_len(&s, i);
        if j >= s.len() {
            assert(acc + Seq::<UseView>::empty() == acc);
            return Ok(out);
        }
        let sub = tail_chars(&s, j);
        let (end, st) = match use_statement(&sub) {
            Some(x) => x,
            None => return Err(ParseError::Invalid),
        };
        let ghost v = st@;
        let k = j + end;
        let k2 = k + space_len(&s, k);
        let ghost acc0 = acc;
        let ghost out0 = out@;
        out.push(Statement::Use(st));
        proof {
            acc = acc + seq![v];
            assert forall|m: int| 0 <= m < out@.len() implies #[trigger] out@[m] is Use && (out@[m]->Use_0)@ == acc[m] by {
                if m < acc0.len() {
                    assert(out@[m] == out0[m]);
                }
            }
        }
        if k2 >= s.len() {
            assert(acc0 + seq![v] == acc);
            return Ok(out);
        }
        if s[k2] != ';' {
            return Err(ParseError::Invalid);
        }
        proof {
            if parse_query_from(s@, k2 + 1) is Some {
                let rest = parse_query_from(s@, k2 + 1)->0;
                assert(acc0 + (seq![v] + rest) == acc + rest);
            }
        }
        i = k2 + 1;
    }
}

} // verus!
