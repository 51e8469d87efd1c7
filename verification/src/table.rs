//! The structural model of one table: columns in positional order, the
//! five constraint categories, and the table options.

use vstd::prelude::*;

use crate::dict::{map_of, StrDict};

verus! {

/// Ghost snapshot of one table.  Every category keeps its entries in
/// parse order; a column's 1-based position is its index plus one.
pub struct TableDefView {
    pub columns: Seq<(Seq<char>, Seq<char>)>,
    pub primary: Seq<(Seq<char>, Seq<char>)>,
    pub unique: Seq<(Seq<char>, Seq<char>)>,
    pub keys: Seq<(Seq<char>, Seq<char>)>,
    pub foreign: Seq<(Seq<char>, Seq<char>)>,
    pub fulltext: Seq<(Seq<char>, Seq<char>)>,
    pub options: Seq<(Seq<char>, Seq<char>)>,
}

/// Structural equality: the column list must agree entry for entry
/// (same names, same definitions, same positions); every other category
/// is compared as an unordered map, regardless of parse order.
pub open spec fn def_equal(a: TableDefView, b: TableDefView) -> bool {
    &&& a.columns == b.columns
    &&& map_of(a.primary) == map_of(b.primary)
    &&& map_of(a.unique) == map_of(b.unique)
    &&& map_of(a.keys) == map_of(b.keys)
    &&& map_of(a.foreign) == map_of(b.foreign)
    &&& map_of(a.fulltext) == map_of(b.fulltext)
    &&& map_of(a.options) == map_of(b.options)
}

/// The structural definition of one table.
pub struct TableDefinition {
    pub columns: StrDict,
    pub primary: StrDict,
    pub unique: StrDict,
    pub keys: StrDict,
    pub foreign: StrDict,
    pub fulltext: StrDict,
    pub options: StrDict,
}

impl TableDefinition {
    /// The ghost snapshot of this definition.
    pub open spec fn model(&self) -> TableDefView {
        TableDefView {
            columns: self.columns.entries_view(),
            primary: self.primary.entries_view(),
            unique: self.unique.entries_view(),
            keys: self.keys.entries_view(),
            foreign: self.foreign.entries_view(),
            fulltext: self.fulltext.entries_view(),
            options: self.options.entries_view(),
        }
    }

    /// Every category has unique keys.
    pub open spec fn wf(&self) -> bool {
        &&& self.columns.wf()
        &&& self.primary.wf()
        &&& self.unique.wf()
        &&& self.keys.wf()
        &&& self.foreign.wf()
        &&& self.fulltext.wf()
        &&& self.options.wf()
    }

    /// A definition with every category empty.
    pub fn new() -> (r: TableDefinition)
        ensures
            r.wf(),
            r.model().columns =~= Seq::<(Seq<char>, Seq<char>)>::empty(),
            r.model().primary =~= Seq::<(Seq<char>, Seq<char>)>::empty(),
            r.model().unique =~= Seq::<(Seq<char>, Seq<char>)>::empty(),
            r.model().keys =~= Seq::<(Seq<char>, Seq<char>)>::empty(),
            r.model().foreign =~= Seq::<(Seq<char>, Seq<char>)>::empty(),
            r.model().fulltext =~= Seq::<(Seq<char>, Seq<char>)>::empty(),
            r.model().options =~= Seq::<(Seq<char>, Seq<char>)>::empty(),
    {
        TableDefinition {
            columns: StrDict::new(),
            primary: StrDict::new(),
            unique: StrDict::new(),
            keys: StrDict::new(),
            foreign: StrDict::new(),
            fulltext: StrDict::new(),
            options: StrDict::new(),
        }
    }

    /// Structural comparison, the trigger for "table is unchanged".
    pub fn def_eq(&self, other: &TableDefinition) -> (r: bool)
        requires
            self.wf(),
            other.wf(),
        ensures
            r == def_equal(self.model(), other.model()),
    {
        let cols_eq = self.columns_eq(other);
        if !cols_eq {
            return false;
        }
        let r = self.primary.map_eq(&other.primary) && self.unique.map_eq(&other.unique)
            && self.keys.map_eq(&other.keys) && self.foreign.map_eq(&other.foreign)
            && self.fulltext.map_eq(&other.fulltext) && self.options.map_eq(&other.options);
        r
    }

    /// Ordered comparison of the column lists.
    fn columns_eq(&self, other: &TableDefinition) -> (r: bool)
        ensures
            r == (self.model().columns == other.model().columns),
    {
        let n = self.columns.len();
        let m = other.columns.len();
        if n != m {
            proof {
                assert(self.model().columns.len() != other.model().columns.len());
            }
            return false;
        }
        let mut i: usize = 0;
        while i < n
            invariant
                n == self.model().columns.len(),
                n == other.model().columns.len(),
                i <= n,
                forall|j: int|
                    0 <= j < i ==> #[trigger] self.model().columns[j] == other.model().columns[j],
            decreases n - i,
        {
            let (ka, va) = self.columns.entry_at(i);
            let (kb, vb) = other.columns.entry_at(i);
            if !(*ka == *kb) || !(*va == *vb) {
                proof {
                    assert(self.model().columns[i as int] != other.model().columns[i as int]);
                }
                return false;
            }
            i = i + 1;
        }
        proof {
            assert(self.model().columns =~= other.model().columns);
        }
        true
    }
}

impl Clone for TableDefinition {
    fn clone(&self) -> (r: Self)
        ensures
            r.model() == self.model(),
            r.wf() == self.wf(),
    {
        let r = TableDefinition {
            columns: self.columns.clone(),
            primary: self.primary.clone(),
            unique: self.unique.clone(),
            keys: self.keys.clone(),
            foreign: self.foreign.clone(),
            fulltext: self.fulltext.clone(),
            options: self.options.clone(),
        };
        r
    }
}

} // verus!
