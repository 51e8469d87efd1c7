//! Rendering a table definition back to a complete `CREATE TABLE`
//! statement: columns in stored position order, then the constraint
//! categories in a fixed order, then the options.  The inverse of
//! parsing up to structure, not byte for byte.

use vstd::prelude::*;

use crate::dict::map_of;
use crate::table::{TableDefView, TableDefinition};

verus! {

/// One rendered column entry; every entry after the first leads with a
/// comma.
pub open spec fn column_entry_text(p: (Seq<char>, Seq<char>), first: bool) -> Seq<char> {
    "  "@ + (if first {
        Seq::<char>::empty()
    } else {
        ","@
    }) + "`"@ + p.0 + "` "@ + p.1
}

/// The column list in stored order.
pub open spec fn columns_text(cols: Seq<(Seq<char>, Seq<char>)>) -> Seq<char>
    decreases cols.len(),
{
    if cols.len() == 0 {
        Seq::empty()
    } else {
        columns_text(cols.drop_last()) + column_entry_text(cols.last(), cols.len() == 1)
    }
}

/// One constraint category, each entry led by its keyword.
pub open spec fn constraints_text(cs: Seq<(Seq<char>, Seq<char>)>, prefix: Seq<char>) -> Seq<char>
    decreases cs.len(),
{
    if cs.len() == 0 {
        Seq::empty()
    } else {
        constraints_text(cs.drop_last(), prefix) + ", "@ + prefix + " "@ + cs.last().0 + " "@
            + cs.last().1
    }
}

/// The engine and charset clauses, each rendered when present.
pub open spec fn options_text(opts: Seq<(Seq<char>, Seq<char>)>) -> Seq<char> {
    let m = map_of(opts);
    (if m.contains_key("engine"@) {
        "ENGINE="@ + m["engine"@] + " "@
    } else {
        Seq::<char>::empty()
    }) + (if m.contains_key("charset"@) {
        "DEFAULT CHARSET="@ + m["charset"@]
    } else {
        Seq::<char>::empty()
    })
}

/// The complete statement for one table.
pub open spec fn create_sql(name: Seq<char>, d: TableDefView) -> Seq<char> {
    "CREATE TABLE `"@ + name + "` (\n"@ + columns_text(d.columns) + constraints_text(
        d.primary,
        "PRIMARY KEY"@,
    ) + constraints_text(d.unique, "UNIQUE KEY"@) + constraints_text(d.keys, "KEY"@)
        + constraints_text(d.foreign, "CONSTRAINT"@) + constraints_text(d.fulltext, "FULLTEXT KEY"@)
        + "\n) "@ + options_text(d.options)
}

impl TableDefinition {
    /// Append one constraint category to the statement being built.
    fn push_constraints_text(sql: &mut String, cs: &crate::dict::StrDict, prefix: &str)
        ensures
            final(sql)@ == old(sql)@ + constraints_text(cs.entries_view(), prefix@),
    {
        let ghost base = old(sql)@;
        let n = cs.len();
        let mut i: usize = 0;
        proof {
            assert(cs.entries_view().take(0) =~= Seq::<(Seq<char>, Seq<char>)>::empty());
            assert(sql@ =~= base + constraints_text(cs.entries_view().take(0), prefix@));
        }
        while i < n
            invariant
                n == cs.entries_view().len(),
                i <= n,
                sql@ == base + constraints_text(cs.entries_view().take(i as int), prefix@),
            decreases n - i,
        {
            let ghost cv = cs.entries_view();
            proof {
                assert(cv.take(i + 1).drop_last() =~= cv.take(i as int));
                assert(cv.take(i + 1).last() == cv[i as int]);
            }
            let (name, def) = cs.entry_at(i);
            sql.append(", ");
            sql.append(prefix);
            sql.append(" ");
            sql.append(name.as_str());
            sql.append(" ");
            sql.append(def.as_str());
            proof {
                assert(sql@ =~= base + constraints_text(cv.take(i + 1), prefix@));
            }
            i = i + 1;
        }
        proof {
            assert(cs.entries_view().take(n as int) =~= cs.entries_view());
        }
    }

    /// Render the complete `CREATE TABLE` statement for this definition
    /// under the given table name.
    pub fn to_sql(&self, table_name: &str) -> (r: String)
        requires
            self.wf(),
        ensures
            r@ == create_sql(table_name@, self.model()),
    {
        let mut sql = String::from_str("CREATE TABLE `");
        sql.append(table_name);
        sql.append("` (\n");
        let ghost header = sql@;

        // Columns, in stored position order.
        let n = self.columns.len();
        let mut i: usize = 0;
        proof {
            assert(self.columns.entries_view().take(0) =~= Seq::<(Seq<char>, Seq<char>)>::empty());
            assert(sql@ =~= header + columns_text(self.columns.entries_view().take(0)));
        }
        while i < n
            invariant
                self.wf(),
                n == self.columns.entries_view().len(),
                i <= n,
                sql@ == header + columns_text(self.columns.entries_view().take(i as int)),
            decreases n - i,
        {
            let ghost cv = self.columns.entries_view();
            proof {
                assert(cv.take(i + 1).drop_last() =~= cv.take(i as int));
                assert(cv.take(i + 1).last() == cv[i as int]);
                assert(cv.take(i + 1).len() == i + 1);
            }
            let (col, def) = self.columns.entry_at(i);
            sql.append("  ");
            if i > 0 {
                sql.append(",");
            }
            sql.append("`");
            sql.append(col.as_str());
            sql.append("` ");
            sql.append(def.as_str());
            proof {
                assert(sql@ =~= header + columns_text(cv.take(i + 1)));
            }
            i = i + 1;
        }
        proof {
            assert(self.columns.entries_view().take(n as int) =~= self.columns.entries_view());
        }

        // Constraint categories, in the fixed order.
        Self::push_constraints_text(&mut sql, &self.primary, "PRIMARY KEY");
        Self::push_constraints_text(&mut sql, &self.unique, "UNIQUE KEY");
        Self::push_constraints_text(&mut sql, &self.keys, "KEY");
        Self::push_constraints_text(&mut sql, &self.foreign, "CONSTRAINT");
        Self::push_constraints_text(&mut sql, &self.fulltext, "FULLTEXT KEY");

        sql.append("\n) ");

        // Options, each when present.
        let ghost before_options = sql@;
        let engine_key = String::from_str("engine");
        let charset_key = String::from_str("charset");
        match self.options.get(&engine_key) {
            Some(e) => {
                sql.append("ENGINE=");
                sql.append(e.as_str());
                sql.append(" ");
            },
            None => {},
        }
        match self.options.get(&charset_key) {
            Some(c) => {
                sql.append("DEFAULT CHARSET=");
                sql.append(c.as_str());
            },
            None => {},
        }
        proof {
            assert(sql@ =~= before_options + options_text(self.model().options));
            assert(sql@ =~= create_sql(table_name@, self.model()));
        }
        sql
    }
}

} // verus!
