//! The operation history: its records and the query that lists them.
use vstd::prelude::*;
use crate::text::{decimal, push_decimal};

verus! {

/// One logged operation.
#[derive(Debug)]
pub struct OperationRecord {
    pub id: i64,
    pub timestamp: String,
    pub action: String,
    pub submodule_name: String,
    pub detail: String,
    pub success: bool,
}

/// A listing query: its SQL text and its text parameters, numbered `?1`,
/// `?2`, ... in order; the row limit is the parameter after them.
#[derive(Debug)]
pub struct OperationQuery {
    pub sql: String,
    pub text_params: Vec<String>,
}

/// The filter conditions and their parameters, in the order they are added.
pub open spec fn conditions(
    submodule: Option<Seq<char>>,
    start: Option<Seq<char>>,
    end: Option<Seq<char>>,
) -> Seq<(Seq<char>, Seq<char>)> {
    let a: Seq<(Seq<char>, Seq<char>)> = match submodule {
        Some(n) => seq![("submodule_name = "@, n)],
        None => Seq::empty(),
    };
    let b = match start {
        Some(s) => a.push(("timestamp >= "@, s)),
        None => a,
    };
    match end {
        Some(e) => b.push(("timestamp <= "@, e)),
        None => b,
    }
}

/// Each condition with its parameter number, joined with ` AND `.
pub open spec fn joined_conditions(c: Seq<(Seq<char>, Seq<char>)>) -> Seq<char>
    decreases c.len(),
{
    if c.len() == 0 {
        Seq::empty()
    } else if c.len() == 1 {
        c[0].0 + "?"@ + decimal(1)
    } else {
        joined_conditions(c.drop_last()) + " AND "@ + c.last().0 + "?"@ + decimal(c.len())
    }
}

pub open spec fn query_sql(c: Seq<(Seq<char>, Seq<char>)>) -> Seq<char> {
    "SELECT id, timestamp, action, submodule_name, detail, success FROM operations "@ + (if c.len()
        == 0 {
        Seq::empty()
    } else {
        "WHERE "@ + joined_conditions(c)
    }) + " ORDER BY id DESC LIMIT ?"@ + decimal(c.len() + 1)
}

pub open spec fn opt_str(o: Option<&str>) -> Option<Seq<char>> {
    match o {
        Some(s) => Some(s@),
        None => None,
    }
}

/// The query that lists at most a limit of operations, newest first,
/// optionally for one submodule and between two timestamps.
pub fn list_query(
    submodule_filter: Option<&str>,
    start_date: Option<&str>,
    end_date: Option<&str>,
) -> (r: OperationQuery)
    ensures
        ({
            let c = conditions(opt_str(submodule_filter), opt_str(start_date), opt_str(end_date));
            &&& r.sql@ == query_sql(c)
            &&& r.text_params.deep_view() == c.map_values(|p: (Seq<char>, Seq<char>)| p.1)
        }),
{
    let ghost c = conditions(opt_str(submodule_filter), opt_str(start_date), opt_str(end_date));
    let mut params: Vec<String> = Vec::new();
    let mut cond = String::new();
    let ghost mut taken: Seq<(Seq<char>, Seq<char>)> = Seq::empty();
    let items: [(Option<&str>, &str); 3] = [
        (submodule_filter, "submodule_name = "),
        (start_date, "timestamp >= "),
        (end_date, "timestamp <= "),
    ];
    let mut k: usize = 0;
    while k < 3
        invariant
            k <= 3,
            items@ == seq![
                (submodule_filter, "submodule_name = "),
                (start_date, "timestamp >= "),
                (end_date, "timestamp <= "),
            ],
            taken == partial_conditions(items@, k as int),
            cond@ == joined_conditions(taken),
            params.deep_view() == taken.map_values(|p: (Seq<char>, Seq<char>)| p.1),
            params@.len() == taken.len(),
            taken.len() <= k,
        decreases 3 - k,
    {
        let (value, text) = items[k];
        match value {
            Some(v) => {
                let ghost before = taken;
                if params.len() > 0 {
                    cond.append(" AND ");
                }
                cond.append(text);
                cond.append("?");
                push_decimal(&mut cond, (params.len() + 1) as u64);
                let ghost pv = params.deep_view();
                params.push(String::from_str(v));
                proof {
                    taken = before.push((text@, v@));
                    assert(taken.drop_last() =~= before);
                    assert(params.deep_view() =~= pv.push(v@));
                    assert(taken.map_values(|p: (Seq<char>, Seq<char>)| p.1) =~= before.map_values(
                        |p: (Seq<char>, Seq<char>)| p.1,
                    ).push(v@));
                    assert(cond@ =~= joined_conditions(taken));
                }
            },
            None => {},
        }
        k += 1;
    }
    proof {
        reveal_with_fuel(partial_conditions, 4);
        assert(items@[0] == (submodule_filter, "submodule_name = "));
        assert(items@[1] == (start_date, "timestamp >= "));
        assert(items@[2] == (end_date, "timestamp <= "));
        assert(taken =~= c);
    }
    let mut sql = String::from_str(
        "SELECT id, timestamp, action, submodule_name, detail, success FROM operations ",
    );
    if params.len() > 0 {
        sql.append("WHERE ");
        sql.append(cond.as_str());
    }
    sql.append(" ORDER BY id DESC LIMIT ?");
    push_decimal(&mut sql, (params.len() + 1) as u64);
    proof {
        assert(params.len() == 0 ==> cond@ =~= Seq::<char>::empty());
    }
    OperationQuery { sql, text_params: params }
}

/// The conditions among the first `k` candidates that have a value.
pub open spec fn partial_conditions(
    items: Seq<(Option<&str>, &str)>,
    k: int,
) -> Seq<(Seq<char>, Seq<char>)>
    decreases k,
{
    if k <= 0 {
        Seq::empty()
    } else {
        let prev = partial_conditions(items, k - 1);
        match items[k - 1].0 {
            Some(v) => prev.push((items[k - 1].1@, v@)),
            None => prev,
        }
    }
}

} // verus!
