//! The stated laws of the diff engine, proved from the same spec
//! functions the executable contracts use.

use vstd::prelude::*;

use crate::alter::{
    add_clause, alter_text, column_changes, constraint_changes, drop_add_clause, drop_changes,
    drop_clause, modify_clause, option_changes, options_clause, table_changes,
};
use crate::dict::{has_key, lemma_map_of_dom, lemma_map_of_get, map_of, uniq_keys};
use crate::diff::{alters_text, creates_text, drops_text, modified_view};
use crate::table::{def_equal, TableDefView, TableDefinition};

verus! {

/// Every category of a definition has unique keys; what parsing and
/// hand construction through the dictionaries always give.
pub open spec fn def_wf(d: TableDefView) -> bool {
    &&& uniq_keys(d.columns)
    &&& uniq_keys(d.primary)
    &&& uniq_keys(d.unique)
    &&& uniq_keys(d.keys)
    &&& uniq_keys(d.foreign)
    &&& uniq_keys(d.fulltext)
    &&& uniq_keys(d.options)
}

proof fn lemma_column_changes_all_kept(
    cols: Seq<(Seq<char>, Seq<char>)>,
    tgt: Map<Seq<char>, Seq<char>>,
)
    requires
        forall|j: int|
            0 <= j < cols.len() ==> tgt.contains_key((#[trigger] cols[j]).0) && tgt[cols[j].0]
                == cols[j].1,
    ensures
        column_changes(cols, tgt) =~= Seq::<Seq<char>>::empty(),
    decreases cols.len(),
{
    if cols.len() > 0 {
        assert(cols.drop_last() =~= cols.take(cols.len() - 1));
        assert(forall|j: int|
            0 <= j < cols.drop_last().len() ==> (#[trigger] cols.drop_last()[j]) == cols[j]);
        lemma_column_changes_all_kept(cols.drop_last(), tgt);
        assert(tgt.contains_key(cols.last().0) && tgt[cols.last().0] == cols.last().1);
    }
}

proof fn lemma_drop_changes_all_kept(
    cols: Seq<(Seq<char>, Seq<char>)>,
    src: Map<Seq<char>, Seq<char>>,
)
    requires
        forall|j: int| 0 <= j < cols.len() ==> src.contains_key((#[trigger] cols[j]).0),
    ensures
        drop_changes(cols, src) =~= Seq::<Seq<char>>::empty(),
    decreases cols.len(),
{
    if cols.len() > 0 {
        assert(forall|j: int|
            0 <= j < cols.drop_last().len() ==> (#[trigger] cols.drop_last()[j]) == cols[j]);
        lemma_drop_changes_all_kept(cols.drop_last(), src);
    }
}

proof fn lemma_constraint_changes_all_kept(
    cs: Seq<(Seq<char>, Seq<char>)>,
    tgt: Map<Seq<char>, Seq<char>>,
    kind: Seq<char>,
)
    requires
        forall|j: int|
            0 <= j < cs.len() ==> tgt.contains_key((#[trigger] cs[j]).0) && tgt[cs[j].0]
                == cs[j].1,
    ensures
        constraint_changes(cs, tgt, kind) =~= Seq::<Seq<char>>::empty(),
    decreases cs.len(),
{
    if cs.len() > 0 {
        assert(forall|j: int|
            0 <= j < cs.drop_last().len() ==> (#[trigger] cs.drop_last()[j]) == cs[j]);
        lemma_constraint_changes_all_kept(cs.drop_last(), tgt, kind);
    }
}

proof fn lemma_category_self_kept(cs: Seq<(Seq<char>, Seq<char>)>)
    requires
        uniq_keys(cs),
    ensures
        forall|j: int|
            0 <= j < cs.len() ==> map_of(cs).contains_key((#[trigger] cs[j]).0) && map_of(cs)[
                cs[j].0
            ] == cs[j].1,
{
    assert forall|j: int|
        0 <= j < cs.len() implies map_of(cs).contains_key((#[trigger] cs[j]).0) && map_of(cs)[
        cs[j].0
    ] == cs[j].1 by {
        lemma_map_of_get(cs, j);
    }
}

/// Idempotence at the statement level: diffing a definition against
/// itself calls for no clause at all.
pub proof fn lemma_self_change_list_empty(d: TableDefView)
    requires
        def_wf(d),
    ensures
        table_changes(d, d) =~= Seq::<Seq<char>>::empty(),
{
    lemma_category_self_kept(d.columns);
    lemma_column_changes_all_kept(d.columns, map_of(d.columns));
    lemma_drop_changes_all_kept(d.columns, map_of(d.columns));
    lemma_category_self_kept(d.primary);
    lemma_constraint_changes_all_kept(d.primary, map_of(d.primary), "PRIMARY KEY"@);
    lemma_category_self_kept(d.unique);
    lemma_constraint_changes_all_kept(d.unique, map_of(d.unique), "UNIQUE INDEX"@);
    lemma_category_self_kept(d.keys);
    lemma_constraint_changes_all_kept(d.keys, map_of(d.keys), "INDEX"@);
    lemma_category_self_kept(d.foreign);
    lemma_constraint_changes_all_kept(d.foreign, map_of(d.foreign), "FOREIGN KEY"@);
    lemma_category_self_kept(d.fulltext);
    lemma_constraint_changes_all_kept(d.fulltext, map_of(d.fulltext), "FULLTEXT INDEX"@);
}

/// A well-formed definition has a well-formed snapshot, so the laws
/// below apply to everything the executable constructors build.
pub proof fn lemma_wf_model(d: &TableDefinition)
    requires
        d.wf(),
    ensures
        def_wf(d.model()),
{
}

/// Idempotence at the statement level, rendered: the statement for a
/// definition against itself is the empty text.
pub proof fn lemma_self_alter_text_empty(name: Seq<char>, d: TableDefView)
    requires
        def_wf(d),
    ensures
        alter_text(name, d, d) =~= Seq::<char>::empty(),
{
    lemma_self_change_list_empty(d);
}

/// Idempotence at the script level: the whole script of a snapshot
/// diffed against itself is the empty text.
pub proof fn lemma_self_script_empty(s: Seq<(Seq<char>, TableDefView)>)
    requires
        uniq_keys(s),
    ensures
        drops_text(s, map_of(s)) + creates_text(s, map_of(s)) + alters_text(
            modified_view(s, map_of(s)),
        ) =~= Seq::<char>::empty(),
{
    lemma_diff_self_empty(s);
}

/// Idempotence at the snapshot level: diffing a snapshot against itself
/// yields no drop block, no create block, and no modified pair.
pub proof fn lemma_diff_self_empty(s: Seq<(Seq<char>, TableDefView)>)
    requires
        uniq_keys(s),
    ensures
        drops_text(s, map_of(s)) =~= Seq::<char>::empty(),
        creates_text(s, map_of(s)) =~= Seq::<char>::empty(),
        modified_view(s, map_of(s)) =~= Seq::<(Seq<char>, TableDefView, TableDefView)>::empty(),
{
    lemma_diff_against_superset(s, s, map_of(s));
}

proof fn lemma_diff_against_superset(
    part: Seq<(Seq<char>, TableDefView)>,
    whole: Seq<(Seq<char>, TableDefView)>,
    m: Map<Seq<char>, TableDefView>,
)
    requires
        uniq_keys(whole),
        m == map_of(whole),
        forall|j: int|
            0 <= j < part.len() ==> exists|i: int|
                0 <= i < whole.len() && #[trigger] whole[i] == #[trigger] part[j],
    ensures
        drops_text(part, m) =~= Seq::<char>::empty(),
        creates_text(part, m) =~= Seq::<char>::empty(),
        modified_view(part, m) =~= Seq::<(Seq<char>, TableDefView, TableDefView)>::empty(),
    decreases part.len(),
{
    if part.len() > 0 {
        assert(forall|j: int|
            0 <= j < part.drop_last().len() ==> (#[trigger] part.drop_last()[j]) == part[j]);
        lemma_diff_against_superset(part.drop_last(), whole, m);
        let p = part.last();
        let i = choose|i: int| 0 <= i < whole.len() && #[trigger] whole[i] == p;
        lemma_map_of_get(whole, i);
        assert(m.contains_key(p.0) && m[p.0] == p.1);
        assert(def_equal(p.1, m[p.0]));
    }
}

/// Symmetry of the add/drop classification: a name produces a drop block
/// exactly when only the target has it, a create block exactly when only
/// the source has it, a modified pair exactly when both have it under
/// unequal definitions; no name can satisfy two of the three.
pub proof fn lemma_classification(
    tgt: Seq<(Seq<char>, TableDefView)>,
    src_m: Map<Seq<char>, TableDefView>,
    n: Seq<char>,
)
    ensures
        (exists|j: int|
            0 <= j < modified_view(tgt, src_m).len() && (#[trigger] modified_view(tgt, src_m)[j]).0
                == n) <==> (has_key(tgt, n) && src_m.contains_key(n) && exists|i: int|
            0 <= i < tgt.len() && (#[trigger] tgt[i]).0 == n && !def_equal(tgt[i].1, src_m[n])),
    decreases tgt.len(),
{
    if tgt.len() > 0 {
        lemma_classification(tgt.drop_last(), src_m, n);
        assert(forall|j: int|
            0 <= j < tgt.drop_last().len() ==> (#[trigger] tgt.drop_last()[j]) == tgt[j]);
        let mv = modified_view(tgt, src_m);
        let prev = modified_view(tgt.drop_last(), src_m);
        let p = tgt.last();
        if src_m.contains_key(p.0) && !def_equal(p.1, src_m[p.0]) {
            assert(mv =~= prev.push((p.0, p.1, src_m[p.0])));
        } else {
            assert(mv =~= prev);
        }
        if exists|j: int| 0 <= j < mv.len() && (#[trigger] mv[j]).0 == n {
            let j = choose|j: int| 0 <= j < mv.len() && (#[trigger] mv[j]).0 == n;
            if j < prev.len() {
                assert(prev[j].0 == n);
            } else {
                assert(p.0 == n);
                assert(tgt[tgt.len() - 1].0 == n);
            }
        }
        if has_key(tgt, n) && src_m.contains_key(n) && exists|i: int|
            0 <= i < tgt.len() && (#[trigger] tgt[i]).0 == n && !def_equal(tgt[i].1, src_m[n]) {
            let i = choose|i: int|
                0 <= i < tgt.len() && (#[trigger] tgt[i]).0 == n && !def_equal(tgt[i].1, src_m[n]);
            if i < tgt.len() - 1 {
                assert(tgt.drop_last()[i].0 == n && !def_equal(tgt.drop_last()[i].1, src_m[n]));
                assert(has_key(tgt.drop_last(), n));
                let j = choose|j: int| 0 <= j < prev.len() && (#[trigger] prev[j]).0 == n;
                assert(mv[j].0 == n);
            } else {
                assert(mv[mv.len() - 1].0 == n);
            }
        }
    }
}

/// Constraint asymmetry, first half: a constraint name absent from the
/// source can be removed from the target without changing the clause
/// list — target-only constraints produce no clause.
pub proof fn lemma_constraint_asymmetry(
    src: Seq<(Seq<char>, Seq<char>)>,
    tgt: Map<Seq<char>, Seq<char>>,
    kind: Seq<char>,
    n: Seq<char>,
)
    requires
        !has_key(src, n),
    ensures
        constraint_changes(src, tgt.remove(n), kind) =~= constraint_changes(src, tgt, kind),
    decreases src.len(),
{
    if src.len() > 0 {
        assert(!has_key(src.drop_last(), n)) by {
            if has_key(src.drop_last(), n) {
                let j = choose|j: int|
                    0 <= j < src.drop_last().len() && (#[trigger] src.drop_last()[j]).0 == n;
                assert(src[j].0 == n);
            }
        }
        lemma_constraint_asymmetry(src.drop_last(), tgt, kind, n);
        assert(src[src.len() - 1].0 != n);
        assert(src.last().0 != n);
    }
}

/// Constraint asymmetry, second half: every clause of a category stems
/// from a source entry.
pub proof fn lemma_constraint_changes_source_driven(
    src: Seq<(Seq<char>, Seq<char>)>,
    tgt: Map<Seq<char>, Seq<char>>,
    kind: Seq<char>,
)
    ensures
        forall|x: Seq<char>|
            #[trigger] constraint_changes(src, tgt, kind).contains(x) ==> exists|j: int|
                0 <= j < src.len() && x == drop_add_clause(
                    kind,
                    (#[trigger] src[j]).0,
                    src[j].1,
                ),
    decreases src.len(),
{
    if src.len() > 0 {
        lemma_constraint_changes_source_driven(src.drop_last(), tgt, kind);
        assert forall|x: Seq<char>|
            #[trigger] constraint_changes(src, tgt, kind).contains(x) implies exists|j: int|
            0 <= j < src.len() && x == drop_add_clause(kind, (#[trigger] src[j]).0, src[j].1) by {
            let cs = constraint_changes(src, tgt, kind);
            let prev = constraint_changes(src.drop_last(), tgt, kind);
            let idx = choose|idx: int| 0 <= idx < cs.len() && cs[idx] == x;
            if idx < prev.len() {
                assert(prev.contains(x));
                let j = choose|j: int|
                    0 <= j < src.drop_last().len() && x == drop_add_clause(
                        kind,
                        (#[trigger] src.drop_last()[j]).0,
                        src.drop_last()[j].1,
                    );
                assert(src[j] == src.drop_last()[j]);
                assert(x == drop_add_clause(kind, src[j].0, src[j].1));
            } else {
                assert(x == drop_add_clause(kind, src[src.len() - 1].0, src[src.len() - 1].1));
            }
        }
    }
}

/// Option clause conditionality: one combined clause exactly when the
/// option maps differ and the source declares both engine and charset;
/// none when either is missing from the source or the maps agree.
pub proof fn lemma_option_clause_conditionality(tgt: TableDefView, src: TableDefView)
    ensures
        !(map_of(src.options).contains_key("engine"@) && map_of(src.options).contains_key(
            "charset"@,
        )) ==> option_changes(src, tgt) =~= Seq::<Seq<char>>::empty(),
        map_of(src.options) == map_of(tgt.options) ==> option_changes(src, tgt) =~= Seq::<
            Seq<char>,
        >::empty(),
        (map_of(src.options) != map_of(tgt.options) && map_of(src.options).contains_key("engine"@)
            && map_of(src.options).contains_key("charset"@)) ==> option_changes(src, tgt)
            =~= seq![
            options_clause(map_of(src.options)["engine"@], map_of(src.options)["charset"@]),
        ],
{
}

/// Column change completeness: a source-only column always yields its
/// add clause, a shared column with a differing definition always yields
/// its modify clause, and a target-only column always yields its drop
/// clause, somewhere in the change list.
pub proof fn lemma_column_change_completeness(tgt: TableDefView, src: TableDefView)
    requires
        uniq_keys(src.columns),
        uniq_keys(tgt.columns),
    ensures
        forall|c: Seq<char>|
            map_of(src.columns).contains_key(c) && !map_of(tgt.columns).contains_key(c)
                ==> #[trigger] table_changes(tgt, src).contains(
                add_clause(c, map_of(src.columns)[c]),
            ),
        forall|c: Seq<char>|
            map_of(src.columns).contains_key(c) && map_of(tgt.columns).contains_key(c) && map_of(
                tgt.columns,
            )[c] != map_of(src.columns)[c] ==> #[trigger] table_changes(tgt, src).contains(
                modify_clause(c, map_of(src.columns)[c]),
            ),
        forall|c: Seq<char>|
            map_of(tgt.columns).contains_key(c) && !map_of(src.columns).contains_key(c)
                ==> #[trigger] table_changes(tgt, src).contains(drop_clause(c)),
{
    let tm = map_of(tgt.columns);
    let sm = map_of(src.columns);
    lemma_map_of_dom(src.columns);
    lemma_map_of_dom(tgt.columns);
    assert forall|c: Seq<char>|
        sm.contains_key(c) && !tm.contains_key(c) implies #[trigger] table_changes(
        tgt,
        src,
    ).contains(add_clause(c, sm[c])) by {
        let j = choose|j: int| 0 <= j < src.columns.len() && (#[trigger] src.columns[j]).0 == c;
        lemma_map_of_get(src.columns, j);
        lemma_column_changes_at(src.columns, tm, j);
        lemma_contains_table_changes(tgt, src, add_clause(c, sm[c]));
    }
    assert forall|c: Seq<char>|
        sm.contains_key(c) && tm.contains_key(c) && tm[c] != sm[c] implies #[trigger] table_changes(
        tgt,
        src,
    ).contains(modify_clause(c, sm[c])) by {
        let j = choose|j: int| 0 <= j < src.columns.len() && (#[trigger] src.columns[j]).0 == c;
        lemma_map_of_get(src.columns, j);
        lemma_column_changes_at(src.columns, tm, j);
        lemma_contains_table_changes(tgt, src, modify_clause(c, sm[c]));
    }
    assert forall|c: Seq<char>|
        tm.contains_key(c) && !sm.contains_key(c) implies #[trigger] table_changes(
        tgt,
        src,
    ).contains(drop_clause(c)) by {
        let j = choose|j: int| 0 <= j < tgt.columns.len() && (#[trigger] tgt.columns[j]).0 == c;
        lemma_drop_changes_at(tgt.columns, sm, j);
        lemma_contains_table_changes(tgt, src, drop_clause(c));
    }
}

proof fn lemma_column_changes_at(
    cols: Seq<(Seq<char>, Seq<char>)>,
    tm: Map<Seq<char>, Seq<char>>,
    j: int,
)
    requires
        0 <= j < cols.len(),
    ensures
        !tm.contains_key(cols[j].0) ==> column_changes(cols, tm).contains(
            add_clause(cols[j].0, cols[j].1),
        ),
        tm.contains_key(cols[j].0) && tm[cols[j].0] != cols[j].1 ==> column_changes(
            cols,
            tm,
        ).contains(modify_clause(cols[j].0, cols[j].1)),
    decreases cols.len(),
{
    let cs = column_changes(cols, tm);
    let prev = column_changes(cols.drop_last(), tm);
    if j == cols.len() - 1 {
        if !tm.contains_key(cols[j].0) {
            assert(cs[prev.len() as int] == add_clause(cols[j].0, cols[j].1));
        } else if tm[cols[j].0] != cols[j].1 {
            assert(cs[prev.len() as int] == modify_clause(cols[j].0, cols[j].1));
        }
    } else {
        lemma_column_changes_at(cols.drop_last(), tm, j);
        assert(cols.drop_last()[j] == cols[j]);
        if !tm.contains_key(cols[j].0) {
            let idx = choose|idx: int|
                0 <= idx < prev.len() && prev[idx] == add_clause(cols[j].0, cols[j].1);
            assert(cs[idx] == add_clause(cols[j].0, cols[j].1));
        } else if tm[cols[j].0] != cols[j].1 {
            let idx = choose|idx: int|
                0 <= idx < prev.len() && prev[idx] == modify_clause(cols[j].0, cols[j].1);
            assert(cs[idx] == modify_clause(cols[j].0, cols[j].1));
        }
    }
}

proof fn lemma_drop_changes_at(
    cols: Seq<(Seq<char>, Seq<char>)>,
    sm: Map<Seq<char>, Seq<char>>,
    j: int,
)
    requires
        0 <= j < cols.len(),
        !sm.contains_key(cols[j].0),
    ensures
        drop_changes(cols, sm).contains(drop_clause(cols[j].0)),
    decreases cols.len(),
{
    let cs = drop_changes(cols, sm);
    let prev = drop_changes(cols.drop_last(), sm);
    if j == cols.len() - 1 {
        assert(cs[prev.len() as int] == drop_clause(cols[j].0));
    } else {
        assert(cols.drop_last()[j] == cols[j]);
        lemma_drop_changes_at(cols.drop_last(), sm, j);
        let idx = choose|idx: int|
            0 <= idx < prev.len() && prev[idx] == drop_clause(cols[j].0);
        assert(cs[idx] == drop_clause(cols[j].0));
    }
}

/// The names classified as dropped: in the target, not in the source.
pub open spec fn dropped_names(
    tgt: Seq<(Seq<char>, TableDefView)>,
    src_m: Map<Seq<char>, TableDefView>,
) -> Seq<Seq<char>>
    decreases tgt.len(),
{
    if tgt.len() == 0 {
        Seq::empty()
    } else {
        dropped_names(tgt.drop_last(), src_m) + (if src_m.contains_key(tgt.last().0) {
            Seq::<Seq<char>>::empty()
        } else {
            seq![tgt.last().0]
        })
    }
}

/// The names classified as created: in the source, not in the target.
pub open spec fn created_names(
    src: Seq<(Seq<char>, TableDefView)>,
    tgt_m: Map<Seq<char>, TableDefView>,
) -> Seq<Seq<char>>
    decreases src.len(),
{
    if src.len() == 0 {
        Seq::empty()
    } else {
        created_names(src.drop_last(), tgt_m) + (if tgt_m.contains_key(src.last().0) {
            Seq::<Seq<char>>::empty()
        } else {
            seq![src.last().0]
        })
    }
}

/// A name is classified as dropped exactly when only the target has it.
pub proof fn lemma_dropped_names_iff(
    tgt: Seq<(Seq<char>, TableDefView)>,
    src_m: Map<Seq<char>, TableDefView>,
    n: Seq<char>,
)
    ensures
        dropped_names(tgt, src_m).contains(n) <==> (has_key(tgt, n) && !src_m.contains_key(n)),
    decreases tgt.len(),
{
    if tgt.len() > 0 {
        lemma_dropped_names_iff(tgt.drop_last(), src_m, n);
        assert(forall|j: int|
            0 <= j < tgt.drop_last().len() ==> (#[trigger] tgt.drop_last()[j]) == tgt[j]);
        let dn = dropped_names(tgt, src_m);
        let prev = dropped_names(tgt.drop_last(), src_m);
        if dn.contains(n) {
            let j = choose|j: int| 0 <= j < dn.len() && dn[j] == n;
            if j < prev.len() {
                assert(prev[j] == n);
                assert(prev.contains(n));
                let i = choose|i: int|
                    0 <= i < tgt.drop_last().len() && (#[trigger] tgt.drop_last()[i]).0 == n;
                assert(tgt[i].0 == n);
            } else {
                assert(n == tgt.last().0);
                assert(tgt[tgt.len() - 1].0 == n);
            }
        }
        if has_key(tgt, n) && !src_m.contains_key(n) {
            let i = choose|i: int| 0 <= i < tgt.len() && (#[trigger] tgt[i]).0 == n;
            if i < tgt.len() - 1 {
                assert(tgt.drop_last()[i].0 == n);
                assert(has_key(tgt.drop_last(), n));
                let j = choose|j: int| 0 <= j < prev.len() && prev[j] == n;
                assert(dn[j] == n);
            } else {
                assert(dn[prev.len() as int] == n);
            }
        }
    }
}

/// A name is classified as created exactly when only the source has it.
pub proof fn lemma_created_names_iff(
    src: Seq<(Seq<char>, TableDefView)>,
    tgt_m: Map<Seq<char>, TableDefView>,
    n: Seq<char>,
)
    ensures
        created_names(src, tgt_m).contains(n) <==> (has_key(src, n) && !tgt_m.contains_key(n)),
    decreases src.len(),
{
    if src.len() > 0 {
        lemma_created_names_iff(src.drop_last(), tgt_m, n);
        assert(forall|j: int|
            0 <= j < src.drop_last().len() ==> (#[trigger] src.drop_last()[j]) == src[j]);
        let cn = created_names(src, tgt_m);
        let prev = created_names(src.drop_last(), tgt_m);
        if cn.contains(n) {
            let j = choose|j: int| 0 <= j < cn.len() && cn[j] == n;
            if j < prev.len() {
                assert(prev[j] == n);
                assert(prev.contains(n));
                let i = choose|i: int|
                    0 <= i < src.drop_last().len() && (#[trigger] src.drop_last()[i]).0 == n;
                assert(src[i].0 == n);
            } else {
                assert(src[src.len() - 1].0 == n);
            }
        }
        if has_key(src, n) && !tgt_m.contains_key(n) {
            let i = choose|i: int| 0 <= i < src.len() && (#[trigger] src[i]).0 == n;
            if i < src.len() - 1 {
                assert(src.drop_last()[i].0 == n);
                assert(has_key(src.drop_last(), n));
                let j = choose|j: int| 0 <= j < prev.len() && prev[j] == n;
                assert(cn[j] == n);
            } else {
                assert(cn[prev.len() as int] == n);
            }
        }
    }
}

/// No table appears in more than one of dropped, created, modified.
pub proof fn lemma_classification_disjoint(
    src: Seq<(Seq<char>, TableDefView)>,
    tgt: Seq<(Seq<char>, TableDefView)>,
    n: Seq<char>,
)
    ensures
        !(dropped_names(tgt, map_of(src)).contains(n) && created_names(src, map_of(tgt)).contains(
            n,
        )),
        !(dropped_names(tgt, map_of(src)).contains(n) && exists|j: int|
            0 <= j < modified_view(tgt, map_of(src)).len() && (#[trigger] modified_view(
                tgt,
                map_of(src),
            )[j]).0 == n),
        !(created_names(src, map_of(tgt)).contains(n) && exists|j: int|
            0 <= j < modified_view(tgt, map_of(src)).len() && (#[trigger] modified_view(
                tgt,
                map_of(src),
            )[j]).0 == n),
{
    lemma_dropped_names_iff(tgt, map_of(src), n);
    lemma_created_names_iff(src, map_of(tgt), n);
    lemma_classification(tgt, map_of(src), n);
    lemma_map_of_dom(src);
    lemma_map_of_dom(tgt);
}

/// The drop blocks are exactly the dropped names rendered in order.
pub proof fn lemma_drops_text_blocks(
    tgt: Seq<(Seq<char>, TableDefView)>,
    src_m: Map<Seq<char>, TableDefView>,
)
    ensures
        drops_text(tgt, src_m) =~= drop_blocks(dropped_names(tgt, src_m)),
    decreases tgt.len(),
{
    if tgt.len() > 0 {
        lemma_drops_text_blocks(tgt.drop_last(), src_m);
        let dn = dropped_names(tgt, src_m);
        let prev = dropped_names(tgt.drop_last(), src_m);
        if src_m.contains_key(tgt.last().0) {
            assert(dn =~= prev);
        } else {
            assert(dn =~= prev.push(tgt.last().0));
            assert(dn.drop_last() =~= prev);
            assert(dn.last() == tgt.last().0);
        }
    }
}

/// One drop block per name, in order.
pub open spec fn drop_blocks(names: Seq<Seq<char>>) -> Seq<char>
    decreases names.len(),
{
    if names.len() == 0 {
        Seq::empty()
    } else {
        drop_blocks(names.drop_last()) + "-- "@ + names.last() + "\n"@ + "DROP TABLE `"@
            + names.last() + "`;\n\n"@
    }
}

/// The entries classified as created, with their definitions.
pub open spec fn created_entries(
    src: Seq<(Seq<char>, TableDefView)>,
    tgt_m: Map<Seq<char>, TableDefView>,
) -> Seq<(Seq<char>, TableDefView)>
    decreases src.len(),
{
    if src.len() == 0 {
        Seq::empty()
    } else {
        created_entries(src.drop_last(), tgt_m) + (if tgt_m.contains_key(src.last().0) {
            Seq::<(Seq<char>, TableDefView)>::empty()
        } else {
            seq![src.last()]
        })
    }
}

/// One full `CREATE TABLE` block per created entry, in order.
pub open spec fn create_blocks(entries: Seq<(Seq<char>, TableDefView)>) -> Seq<char>
    decreases entries.len(),
{
    if entries.len() == 0 {
        Seq::empty()
    } else {
        create_blocks(entries.drop_last()) + "-- "@ + entries.last().0 + "\n"@
            + crate::render::create_sql(entries.last().0, entries.last().1) + ";\n\n"@
    }
}

/// The create blocks are exactly the created entries rendered in order:
/// a source-only table always gets its full `CREATE TABLE` statement.
pub proof fn lemma_creates_text_blocks(
    src: Seq<(Seq<char>, TableDefView)>,
    tgt_m: Map<Seq<char>, TableDefView>,
)
    ensures
        creates_text(src, tgt_m) =~= create_blocks(created_entries(src, tgt_m)),
    decreases src.len(),
{
    if src.len() > 0 {
        lemma_creates_text_blocks(src.drop_last(), tgt_m);
        let ce = created_entries(src, tgt_m);
        let prev = created_entries(src.drop_last(), tgt_m);
        if tgt_m.contains_key(src.last().0) {
            assert(ce =~= prev);
        } else {
            assert(ce =~= prev.push(src.last()));
            assert(ce.drop_last() =~= prev);
            assert(ce.last() == src.last());
        }
    }
}

/// Membership carries from the left summand into a concatenation.
proof fn lemma_contains_cat_l(a: Seq<Seq<char>>, b: Seq<Seq<char>>, x: Seq<char>)
    requires
        a.contains(x),
    ensures
        (a + b).contains(x),
{
    let idx = choose|idx: int| 0 <= idx < a.len() && a[idx] == x;
    assert((a + b)[idx] == x);
}

/// Membership carries from the right summand into a concatenation.
proof fn lemma_contains_cat_r(a: Seq<Seq<char>>, b: Seq<Seq<char>>, x: Seq<char>)
    requires
        b.contains(x),
    ensures
        (a + b).contains(x),
{
    let idx = choose|idx: int| 0 <= idx < b.len() && b[idx] == x;
    assert((a + b)[a.len() + idx] == x);
}

/// Membership in the column or drop part carries into the whole change
/// list.
proof fn lemma_contains_table_changes(tgt: TableDefView, src: TableDefView, x: Seq<char>)
    requires
        column_changes(src.columns, map_of(tgt.columns)).contains(x) || drop_changes(
            tgt.columns,
            map_of(src.columns),
        ).contains(x),
    ensures
        table_changes(tgt, src).contains(x),
{
    let cc = column_changes(src.columns, map_of(tgt.columns));
    let dd = drop_changes(tgt.columns, map_of(src.columns));
    let c1 = constraint_changes(src.primary, map_of(tgt.primary), "PRIMARY KEY"@);
    let c2 = constraint_changes(src.unique, map_of(tgt.unique), "UNIQUE INDEX"@);
    let c3 = constraint_changes(src.keys, map_of(tgt.keys), "INDEX"@);
    let c4 = constraint_changes(src.foreign, map_of(tgt.foreign), "FOREIGN KEY"@);
    let c5 = constraint_changes(src.fulltext, map_of(tgt.fulltext), "FULLTEXT INDEX"@);
    let oc = option_changes(src, tgt);
    if cc.contains(x) {
        lemma_contains_cat_l(cc, dd, x);
    } else {
        lemma_contains_cat_r(cc, dd, x);
    }
    lemma_contains_cat_l(cc + dd, c1, x);
    lemma_contains_cat_l(cc + dd + c1, c2, x);
    lemma_contains_cat_l(cc + dd + c1 + c2, c3, x);
    lemma_contains_cat_l(cc + dd + c1 + c2 + c3, c4, x);
    lemma_contains_cat_l(cc + dd + c1 + c2 + c3 + c4, c5, x);
    lemma_contains_cat_l(cc + dd + c1 + c2 + c3 + c4 + c5, oc, x);
    assert(table_changes(tgt, src) == cc + dd + c1 + c2 + c3 + c4 + c5 + oc);
}

} // verus!
