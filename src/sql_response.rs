//! Rows of a query result as JSON: each row an object from column name to
//! value, the result an array of rows.
use vstd::prelude::*;
use crate::text::{int_text, push_int, push_quoted, quoted};

verus! {

/// A column's value, as read from a row.
pub enum ColumnValue {
    Integer(i64),
    Boolean(bool),
    /// A number already written as JSON text.
    Number(String),
    Text(String),
}

/// How a column's value is written in JSON.
pub open spec fn column_json(v: ColumnValue) -> Seq<char> {
    match v {
        ColumnValue::Integer(n) => int_text(n as int),
        ColumnValue::Boolean(b) => if b {
            "true"@
        } else {
            "false"@
        },
        ColumnValue::Number(t) => t@,
        ColumnValue::Text(t) => quoted(t@),
    }
}

/// The members of a row object, comma separated.
pub open spec fn columns_json(cols: Seq<(String, ColumnValue)>) -> Seq<char>
    decreases cols.len(),
{
    if cols.len() == 0 {
        Seq::empty()
    } else {
        let last = cols.last();
        let member = quoted(last.0@) + ":"@ + column_json(last.1);
        if cols.len() == 1 {
            member
        } else {
            columns_json(cols.drop_last()) + ","@ + member
        }
    }
}

/// The JSON texts of rows, as an array.
pub open spec fn rows_json(rows: Seq<Seq<char>>) -> Seq<char>
    decreases rows.len(),
{
    if rows.len() == 0 {
        Seq::empty()
    } else if rows.len() == 1 {
        rows[0]
    } else {
        rows_json(rows.drop_last()) + ","@ + rows.last()
    }
}

/// One row of a query result, as the JSON text of an object.
pub struct SqlResponse {
    result: String,
}

impl SqlResponse {
    pub closed spec fn view(&self) -> Seq<char> {
        self.result@
    }

    /// The row whose columns are `cols`, in order.
    pub fn from_columns(cols: &Vec<(String, ColumnValue)>) -> (r: SqlResponse)
        ensures
            r.view() == "{"@ + columns_json(cols@) + "}"@,
    {
        let mut out = String::from_str("{");
        let ghost start = out@;
        let mut i: usize = 0;
        while i < cols.len()
            invariant
                i <= cols.len(),
                out@ == start + columns_json(cols@.take(i as int)),
            decreases cols.len() - i,
        {
            let ghost before = out@;
            if i > 0 {
                out.append(",");
            }
            push_quoted(&mut out, cols[i].0.as_str());
            out.append(":");
            match &cols[i].1 {
                ColumnValue::Integer(n) => push_int(&mut out, *n),
                ColumnValue::Boolean(b) => {
                    if *b {
                        out.append("true");
                    } else {
                        out.append("false");
                    }
                },
                ColumnValue::Number(t) => out.append(t.as_str()),
                ColumnValue::Text(t) => push_quoted(&mut out, t.as_str()),
            }
            proof {
                let next = cols@.take(i + 1);
                assert(next.drop_last() =~= cols@.take(i as int));
                assert(next.last() == cols@[i as int]);
                if i == 0 {
                    assert(cols@.take(0) =~= Seq::<(String, ColumnValue)>::empty());
                }
            }
            i = i + 1;
            assert(out@ =~= start + columns_json(cols@.take(i as int)));
        }
        assert(cols@.take(i as int) =~= cols@);
        out.append("}");
        SqlResponse { result: out }
    }

    /// The row's JSON text.
    pub fn into_json_value(self) -> (r: String)
        ensures
            r@ == self.view(),
    {
        self.result
    }
}

/// The rows as one JSON array.
pub fn rows_to_json_array(items: Vec<SqlResponse>) -> (r: String)
    ensures
        r@ == "["@ + rows_json(items@.map_values(|x: SqlResponse| x.view())) + "]"@,
{
    let ghost rows = items@.map_values(|x: SqlResponse| x.view());
    let mut out = String::from_str("[");
    let ghost start = out@;
    let mut i: usize = 0;
    while i < items.len()
        invariant
            i <= items.len(),
            rows == items@.map_values(|x: SqlResponse| x.view()),
            out@ == start + rows_json(rows.take(i as int)),
        decreases items.len() - i,
    {
        if i > 0 {
            out.append(",");
        }
        out.append(items[i].result.as_str());
        proof {
            let next = rows.take(i + 1);
            assert(next.drop_last() =~= rows.take(i as int));
            assert(next.last() == items@[i as int].view());
            if i == 0 {
                assert(rows.take(0) =~= Seq::<Seq<char>>::empty());
                assert(next =~= seq![items@[0].view()]);
            }
        }
        i = i + 1;
        assert(out@ =~= start + rows_json(rows.take(i as int)));
    }
    assert(rows.take(i as int) =~= rows);
    out.append("]");
    out
}

} // verus!
