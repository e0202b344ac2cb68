use crate::cmd::{
    columns_text, delete_text, empty_view, insert_text, query_text, update_text, CmdView, Method,
};
use vstd::prelude::*;

verus! {

/// A command made for a method holds that method and nothing else: no table,
/// no columns, no values, zero counts and no condition, for every method.
pub proof fn law_empty_command(m: Method)
    ensures
        empty_view(m).method == m,
        empty_view(m).table.len() == 0,
        empty_view(m).columns.len() == 0,
        empty_view(m).columns_len == 0,
        empty_view(m).values.len() == 0,
        empty_view(m).values_len == 0,
        empty_view(m).expression is None,
{
}

/// The SELECT statement ends with a space and then the condition, verbatim
/// (nothing where there is none), whatever the columns are.
pub proof fn law_query_ends_with_condition(c: CmdView)
    ensures
        ({
            let tail = " "@ + match c.expression {
                Some(e) => e,
                None => Seq::<char>::empty(),
            };
            let q = query_text(c);
            &&& tail.len() <= q.len()
            &&& q.skip(q.len() - tail.len()) == tail
        }),
{
    let tail = " "@ + match c.expression {
        Some(e) => e,
        None => Seq::<char>::empty(),
    };
    let head = "SELECT "@ + columns_text(c) + " FROM "@ + c.table;
    assert(query_text(c) =~= head + tail);
    assert((head + tail).skip(head.len() as int) =~= tail);
}

/// The SELECT statement does not depend on the values or on the counts.
pub proof fn law_query_ignores_values(c: CmdView, values: Seq<Seq<char>>, n: nat, m: nat)
    ensures
        query_text(CmdView { values, columns_len: n, values_len: m, ..c }) == query_text(c),
{
}

/// The DELETE statement is the table and then the condition, verbatim, for
/// any condition; with no condition nothing follows the space.
pub proof fn law_delete_statement(c: CmdView)
    ensures
        delete_text(c) == "DELETE FROM "@ + c.table + " "@ + match c.expression {
            Some(e) => e,
            None => Seq::<char>::empty(),
        },
{
}

/// The column list is `*` without columns; one more column adds a comma
/// (where there were columns already) and the column's name.
pub proof fn law_columns_list(c: CmdView, x: Seq<char>)
    ensures
        c.columns.len() == 0 ==> columns_text(c) == "*"@,
        columns_text(CmdView { columns: c.columns.push(x), ..c }) == if c.columns.len() == 0 {
            x
        } else {
            columns_text(c) + ","@ + x
        },
{
    let c2 = CmdView { columns: c.columns.push(x), ..c };
    assert(c2.columns.drop_last() =~= c.columns);
    if c.columns.len() == 0 {
        assert(c2.columns.len() == 1);
    }
}

/// An INSERT statement without values ends with an empty value list.
pub proof fn law_insert_without_values(c: CmdView)
    requires
        c.values.len() == 0,
    ensures
        insert_text(c) == "INSERT INTO "@ + c.table + "("@ + columns_text(c) + ") values("@ + ")"@,
{
    assert(c.values.map_values(|v: Seq<char>| "'"@ + v + "'"@) =~= Seq::<Seq<char>>::empty());
}

/// One more value adds, before the closing bracket, a comma (where there
/// were values already) and the value in single quotes: every value stands in
/// the INSERT statement, in order.
pub proof fn law_insert_adds_one_value(c: CmdView, x: Seq<char>)
    ensures
        ({
            let before = insert_text(c);
            let after = insert_text(CmdView { values: c.values.push(x), ..c });
            let sep = if c.values.len() == 0 {
                Seq::<char>::empty()
            } else {
                ","@
            };
            &&& before.len() > 0
            &&& before.last() == ')'
            &&& after == before.drop_last() + sep + "'"@ + x + "'"@ + ")"@
        }),
{
    reveal_strlit(")");
    let c2 = CmdView { values: c.values.push(x), ..c };
    let qv = c.values.map_values(|v: Seq<char>| crate::cmd::quoted(v));
    let qv2 = c2.values.map_values(|v: Seq<char>| crate::cmd::quoted(v));
    assert(qv2.drop_last() =~= qv);
    assert(qv2.last() == "'"@ + x + "'"@);
    let head = "INSERT INTO "@ + c.table + "("@ + columns_text(c) + ") values("@;
    let sep = if c.values.len() == 0 {
        Seq::<char>::empty()
    } else {
        ","@
    };
    if c.values.len() == 0 {
        assert(qv =~= Seq::<Seq<char>>::empty());
        assert(qv2.len() == 1);
    }
    assert(insert_text(c) =~= head + crate::text::join(qv, ","@) + ")"@);
    assert(insert_text(c).drop_last() =~= head + crate::text::join(qv, ","@));
    assert(insert_text(c2) =~= head + crate::text::join(qv2, ","@) + ")"@);
    assert(crate::text::join(qv2, ","@) =~= crate::text::join(qv, ","@) + sep + ("'"@ + x + "'"@));
    assert(insert_text(c2) =~= insert_text(c).drop_last() + sep + "'"@ + x + "'"@ + ")"@);
}

/// An UPDATE statement with a column count of zero sets nothing.
pub proof fn law_update_without_assignments(c: CmdView)
    requires
        c.columns_len == 0,
    ensures
        update_text(c) == "UPDATE "@ + c.table + " SET "@ + " "@ + match c.expression {
            Some(e) => e,
            None => Seq::<char>::empty(),
        },
{
    assert(crate::cmd::assignments(c) =~= Seq::<Seq<char>>::empty());
}

/// Counting one more column adds, before the space and the condition, a comma
/// (where there were assignments already) and the assignment of that column
/// to its value in single quotes: the SET list holds exactly the first
/// `columns_len` columns, each with its value, in order.
pub proof fn law_update_adds_one_assignment(c: CmdView)
    requires
        0 < c.columns_len <= c.columns.len(),
        c.columns_len <= c.values.len(),
    ensures
        ({
            let n = c.columns_len;
            let before = update_text(CmdView { columns_len: (n - 1) as nat, ..c });
            let tail = " "@ + match c.expression {
                Some(e) => e,
                None => Seq::<char>::empty(),
            };
            let k = before.len() - tail.len();
            let sep = if n == 1 {
                Seq::<char>::empty()
            } else {
                ","@
            };
            &&& tail.len() <= before.len()
            &&& before.skip(k) == tail
            &&& update_text(c) == before.take(k) + sep + c.columns[n - 1] + " = "@ + "'"@
                + c.values[n - 1] + "'"@ + tail
        }),
{
    let n = c.columns_len;
    let c0 = CmdView { columns_len: (n - 1) as nat, ..c };
    let a = crate::cmd::assignments(c);
    let a0 = crate::cmd::assignments(c0);
    assert(a.drop_last() =~= a0);
    let tail = " "@ + match c.expression {
        Some(e) => e,
        None => Seq::<char>::empty(),
    };
    let sep = if n == 1 {
        Seq::<char>::empty()
    } else {
        ","@
    };
    let head = "UPDATE "@ + c.table + " SET "@;
    let j0 = crate::text::join(a0, ","@);
    if n == 1 {
        assert(a0 =~= Seq::<Seq<char>>::empty());
    }
    assert(crate::text::join(a, ","@) =~= j0 + sep + a.last());
    assert(update_text(c0) =~= (head + j0) + tail);
    let before = update_text(c0);
    let k = before.len() - tail.len();
    assert(before.take(k) =~= head + j0);
    assert(before.skip(k) =~= tail);
    assert(a.last() == c.columns[n - 1] + " = "@ + ("'"@ + c.values[n - 1] + "'"@));
    assert(update_text(c) =~= before.take(k) + sep + c.columns[n - 1] + " = "@ + "'"@
        + c.values[n - 1] + "'"@ + tail);
}

} // verus!
