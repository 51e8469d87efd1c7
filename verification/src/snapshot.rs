//! A schema snapshot: table name to structural definition, in the order
//! the tables were found, plus the scan that splits a SQL dump into
//! per-table `CREATE TABLE` blocks.

use vstd::prelude::*;

use crate::dict::{
    has_key, lemma_map_of_dom, lemma_map_of_get, lemma_upsert, lemma_upsert_absent,
    lemma_upsert_present, map_of, uniq_keys, upsert,
};
use crate::parse::{ieq_at, ieq_check, parse_table_definition, parsed_def};
use crate::table::{TableDefView, TableDefinition};
use crate::text::{
    chars_of, non_semi_end, scan_non_semi, scan_space, scan_word, space_end, word_end,
};

verus! {

pub open spec fn kw_create() -> Seq<char> {
    "CREATE"@
}

pub open spec fn kw_table() -> Seq<char> {
    "TABLE"@
}

/// The last close parenthesis in `s[lo..hi]`, if any.
pub open spec fn last_paren_before(s: Seq<char>, lo: int, hi: int) -> Option<int>
    decreases hi - lo when lo <= hi
{
    if hi <= lo {
        None
    } else if s[hi - 1] == ')' {
        Some(hi - 1)
    } else {
        last_paren_before(s, lo, hi - 1)
    }
}

/// A `CREATE TABLE` block at position `i`: the two keywords, optional
/// whitespace, an optionally backtick-quoted name, then a parenthesized
/// body running to the last close parenthesis before the next semicolon.
/// Yields the name, the whole block text, and the resume position.
pub open spec fn table_match_at(s: Seq<char>, i: int) -> Option<(Seq<char>, Seq<char>, int)> {
    if ieq_at(s, i, kw_create()) {
        let w1 = space_end(s, i + kw_create().len());
        if ieq_at(s, w1, kw_table()) {
            let w2 = space_end(s, w1 + kw_table().len());
            let nb = if w2 < s.len() && s[w2] == '`' {
                w2 + 1
            } else {
                w2
            };
            let ne = word_end(s, nb);
            if ne > nb {
                let na = if ne < s.len() && s[ne] == '`' {
                    ne + 1
                } else {
                    ne
                };
                let w3 = space_end(s, na);
                if w3 < s.len() && s[w3] == '(' {
                    match last_paren_before(s, w3 + 1, non_semi_end(s, w3 + 1)) {
                        Some(q) => {
                            if q >= w3 + 2 {
                                Some((s.subrange(nb, ne), s.subrange(i, q + 1), q + 1))
                            } else {
                                None
                            }
                        },
                        None => None,
                    }
                } else {
                    None
                }
            } else {
                None
            }
        } else {
            None
        }
    } else {
        None
    }
}

/// All table blocks of a dump, leftmost first.
pub open spec fn scan_tables(s: Seq<char>, i: int) -> Seq<(Seq<char>, Seq<char>)>
    decreases s.len() - i when 0 <= i <= s.len()
{
    if i >= s.len() {
        Seq::empty()
    } else {
        match table_match_at(s, i) {
            Some(m) => {
                let next = if m.2 <= i {
                    i + 1
                } else if m.2 > s.len() {
                    s.len() as int
                } else {
                    m.2
                };
                seq![(m.0, m.1)] + scan_tables(s, next)
            },
            None => scan_tables(s, i + 1),
        }
    }
}

/// Each block parsed, folded into a name-keyed snapshot.
pub open spec fn defs_fold(ps: Seq<(Seq<char>, Seq<char>)>) -> Seq<(Seq<char>, TableDefView)>
    decreases ps.len(),
{
    if ps.len() == 0 {
        Seq::empty()
    } else {
        upsert(defs_fold(ps.drop_last()), ps.last().0, parsed_def(ps.last().1))
    }
}

/// What loading a dump text yields.
pub open spec fn snapshot_view(s: Seq<char>) -> Seq<(Seq<char>, TableDefView)> {
    defs_fold(scan_tables(s, 0))
}

proof fn lemma_defs_fold_push(ps: Seq<(Seq<char>, Seq<char>)>, p: (Seq<char>, Seq<char>))
    ensures
        defs_fold(ps.push(p)) == upsert(defs_fold(ps), p.0, parsed_def(p.1)),
{
    assert(ps.push(p).drop_last() =~= ps);
    assert(ps.push(p).last() == p);
}

/// One schema's tables, each name mapped to its structural definition,
/// kept in the order the tables were first seen.
pub struct Snapshot {
    pub tables: Vec<(String, TableDefinition)>,
}

impl Snapshot {
    /// Names and definition snapshots, in insertion order.
    pub open spec fn entries_view(&self) -> Seq<(Seq<char>, TableDefView)> {
        Seq::new(self.tables@.len(), |i: int| (self.tables@[i].0@, self.tables@[i].1.model()))
    }

    /// The unordered content.
    pub open spec fn map_view(&self) -> Map<Seq<char>, TableDefView> {
        map_of(self.entries_view())
    }

    /// Names unique, every definition well formed.
    pub open spec fn wf(&self) -> bool {
        &&& uniq_keys(self.entries_view())
        &&& forall|i: int| 0 <= i < self.tables@.len() ==> (#[trigger] self.tables@[i]).1.wf()
    }

    pub fn new() -> (r: Snapshot)
        ensures
            r.wf(),
            r.entries_view() =~= Seq::<(Seq<char>, TableDefView)>::empty(),
    {
        Snapshot { tables: Vec::new() }
    }

    pub fn len(&self) -> (r: usize)
        ensures
            r == self.entries_view().len(),
    {
        self.tables.len()
    }

    /// The entry at position `i` in insertion order.
    pub fn at(&self, i: usize) -> (r: (&String, &TableDefinition))
        requires
            self.wf(),
            i < self.entries_view().len(),
        ensures
            r.0@ == self.entries_view()[i as int].0,
            r.1.model() == self.entries_view()[i as int].1,
            r.1.wf(),
    {
        let p = &self.tables[i];
        (&p.0, &p.1)
    }

    /// Look a table up by name.
    pub fn get(&self, name: &String) -> (r: Option<&TableDefinition>)
        requires
            self.wf(),
        ensures
            match r {
                Some(d) => self.map_view().contains_key(name@) && d.model()
                    == self.map_view()[name@] && d.wf(),
                None => !self.map_view().contains_key(name@),
            },
    {
        proof {
            lemma_map_of_dom(self.entries_view());
        }
        let n = self.tables.len();
        let mut i: usize = 0;
        while i < n
            invariant
                self.wf(),
                n == self.entries_view().len(),
                i <= n,
                forall|j: int| 0 <= j < i ==> (#[trigger] self.entries_view()[j]).0 != name@,
            decreases n - i,
        {
            if self.tables[i].0 == *name {
                proof {
                    lemma_map_of_get(self.entries_view(), i as int);
                }
                return Some(&self.tables[i].1);
            }
            i = i + 1;
        }
        proof {
            assert(!has_key(self.entries_view(), name@));
        }
        None
    }

    /// True exactly when the snapshot holds a table of this name.
    pub fn contains_table(&self, name: &String) -> (r: bool)
        requires
            self.wf(),
        ensures
            r == self.map_view().contains_key(name@),
    {
        match self.get(name) {
            Some(_) => true,
            None => false,
        }
    }

    /// Bind a name to a definition: replace in place when present, append
    /// when absent.
    pub fn insert(&mut self, name: String, def: TableDefinition)
        requires
            old(self).wf(),
            def.wf(),
        ensures
            final(self).wf(),
            final(self).entries_view() == upsert(
                old(self).entries_view(),
                name@,
                def.model(),
            ),
            final(self).map_view() == old(self).map_view().insert(name@, def.model()),
    {
        let ghost s0 = self.entries_view();
        let ghost nv = name@;
        let ghost dv = def.model();
        let n = self.tables.len();
        let mut i: usize = 0;
        while i < n
            invariant
                self.entries_view() == s0,
                self.tables@ == old(self).tables@,
                s0 == old(self).entries_view(),
                nv == name@,
                dv == def.model(),
                def.wf(),
                old(self).wf(),
                uniq_keys(s0),
                n == s0.len(),
                i <= n,
                forall|j: int| 0 <= j < i ==> (#[trigger] s0[j]).0 != nv,
            decreases n - i,
        {
            if self.tables[i].0 == *(&name) {
                let ghost ii = i as int;
                let _ = self.tables.remove(i);
                self.tables.insert(i, (name, def));
                proof {
                    assert(self.entries_view() =~= s0.update(ii, (nv, dv)));
                    lemma_upsert_present(s0, nv, dv, ii);
                    lemma_upsert(s0, nv, dv);
                    assert(self.entries_view() == upsert(s0, nv, dv));
                    assert forall|j: int| 0 <= j < self.tables@.len() implies (#[trigger] self
                        .tables@[j]).1.wf() by {
                        if j != ii {
                            assert(self.tables@[j] == old(self).tables@[j]);
                        }
                    }
                }
                return ;
            }
            i = i + 1;
        }
        self.tables.push((name, def));
        proof {
            assert(!has_key(s0, nv));
            lemma_upsert_absent(s0, nv, dv);
            lemma_upsert(s0, nv, dv);
            assert(self.entries_view() =~= s0.push((nv, dv)));
            assert(self.entries_view() == upsert(s0, nv, dv));
            assert forall|j: int| 0 <= j < self.tables@.len() implies (#[trigger] self
                .tables@[j]).1.wf() by {
                if j < self.tables@.len() - 1 {
                    assert(self.tables@[j] == old(self).tables@[j]);
                }
            }
        }
    }
}

/// The keyword texts of the dump scan.
pub struct DumpKeywords {
    pub create: Vec<char>,
    pub table: Vec<char>,
}

pub open spec fn dump_kws_wf(k: &DumpKeywords) -> bool {
    &&& k.create@ == kw_create()
    &&& k.table@ == kw_table()
}

fn dump_keywords() -> (k: DumpKeywords)
    ensures
        dump_kws_wf(&k),
{
    DumpKeywords { create: chars_of("CREATE"), table: chars_of("TABLE") }
}

/// Executable form of [`last_paren_before`].
fn scan_last_paren(v: &Vec<char>, lo: usize, hi: usize) -> (r: Option<usize>)
    requires
        lo <= hi <= v@.len(),
    ensures
        match r {
            Some(q) => last_paren_before(v@, lo as int, hi as int) == Some(q as int) && lo <= q
                < hi,
            None => last_paren_before(v@, lo as int, hi as int) is None,
        },
{
    let mut h = hi;
    while h > lo
        invariant
            lo <= h <= hi <= v@.len(),
            last_paren_before(v@, lo as int, hi as int) == last_paren_before(
                v@,
                lo as int,
                h as int,
            ),
        decreases h,
    {
        if v[h - 1] == ')' {
            return Some(h - 1);
        }
        h = h - 1;
    }
    None
}

/// Try the table-block pattern at position `i`; `Some` carries the name
/// and the block's end.
fn try_table_at(v: &Vec<char>, i: usize, kws: &DumpKeywords, s: &str) -> (r: Option<
    (String, usize),
>)
    requires
        v@ == s@,
        dump_kws_wf(kws),
        i < v@.len(),
    ensures
        match r {
            Some(m) => table_match_at(v@, i as int) == Some(
                (m.0@, v@.subrange(i as int, m.1 as int), m.1 as int),
            ) && i < m.1 <= v@.len(),
            None => table_match_at(v@, i as int) is None,
        },
{
    proof {
        reveal_strlit("CREATE");
        reveal_strlit("TABLE");
    }
    let n = v.len();
    if !ieq_check(v, i, &kws.create) {
        return None;
    }
    let w1 = scan_space(v, i + kws.create.len());
    if !ieq_check(v, w1, &kws.table) {
        return None;
    }
    let w2 = scan_space(v, w1 + kws.table.len());
    let nb = if w2 < n && v[w2] == '`' {
        w2 + 1
    } else {
        w2
    };
    let ne = scan_word(v, nb);
    if !(ne > nb) {
        return None;
    }
    let na = if ne < n && v[ne] == '`' {
        ne + 1
    } else {
        ne
    };
    let w3 = scan_space(v, na);
    if !(w3 < n && v[w3] == '(') {
        return None;
    }
    let stop = scan_non_semi(v, w3 + 1);
    match scan_last_paren(v, w3 + 1, stop) {
        Some(q) => {
            if q >= w3 + 2 {
                let name = String::from_str(s.substring_char(nb, ne));
                Some((name, q + 1))
            } else {
                None
            }
        },
        None => None,
    }
}

/// Split a dump text into `CREATE TABLE` blocks and parse each one.
/// Text between blocks is skipped; a malformed or empty input simply
/// yields a smaller or empty snapshot.
pub fn parse_sql_dump(content: &str) -> (snap: Snapshot)
    ensures
        snap.wf(),
        snap.entries_view() == snapshot_view(content@),
{
    let v = chars_of(content);
    let kws = dump_keywords();
    let n = v.len();
    let mut snap = Snapshot::new();
    let ghost mut acc: Seq<(Seq<char>, Seq<char>)> = Seq::empty();
    let mut i: usize = 0;
    proof {
        assert(acc + scan_tables(v@, 0) =~= scan_tables(v@, 0));
    }
    while i < n
        invariant
            v@ == content@,
            dump_kws_wf(&kws),
            n == v@.len(),
            i <= n,
            scan_tables(v@, 0) == acc + scan_tables(v@, i as int),
            snap.wf(),
            snap.entries_view() == defs_fold(acc),
        decreases n - i,
    {
        match try_table_at(&v, i, &kws, content) {
            Some((name, q1)) => {
                let ghost nm = name@;
                let ghost block_view = v@.subrange(i as int, q1 as int);
                let block = content.substring_char(i, q1);
                let def = parse_table_definition(block);
                proof {
                    assert(scan_tables(v@, i as int) == seq![(nm, block_view)] + scan_tables(
                        v@,
                        q1 as int,
                    ));
                    lemma_defs_fold_push(acc, (nm, block_view));
                    assert(acc.push((nm, block_view)) =~= acc + seq![(nm, block_view)]);
                    assert((acc + seq![(nm, block_view)]) + scan_tables(v@, q1 as int) =~= acc + (
                    seq![(nm, block_view)] + scan_tables(v@, q1 as int)));
                }
                snap.insert(name, def);
                proof {
                    acc = acc.push((nm, block_view));
                }
                i = q1;
            },
            None => {
                proof {
                    assert(scan_tables(v@, i as int) == scan_tables(v@, i as int + 1));
                }
                i = i + 1;
            },
        }
    }
    proof {
        assert(scan_tables(v@, n as int) =~= Seq::<(Seq<char>, Seq<char>)>::empty());
        assert(acc + scan_tables(v@, n as int) =~= acc);
    }
    snap
}

} // verus!
