//! The alter generator: the clause list that moves a target definition
//! toward a source definition, and its rendering as one `ALTER TABLE`
//! statement.

use vstd::prelude::*;

use crate::dict::{has_key, lemma_map_of_dom, lemma_map_of_get, map_of, uniq_keys, StrDict};
use crate::table::{TableDefView, TableDefinition};

verus! {

/// The character sequences of a sequence of strings.
pub open spec fn strs_view(v: Seq<String>) -> Seq<Seq<char>> {
    Seq::new(v.len(), |i: int| v[i]@)
}

pub open spec fn modify_clause(c: Seq<char>, d: Seq<char>) -> Seq<char> {
    "MODIFY COLUMN `"@ + c + "` "@ + d
}

pub open spec fn add_clause(c: Seq<char>, d: Seq<char>) -> Seq<char> {
    "ADD COLUMN `"@ + c + "` "@ + d
}

pub open spec fn drop_clause(c: Seq<char>) -> Seq<char> {
    "DROP COLUMN `"@ + c + "`"@
}

pub open spec fn drop_add_clause(kind: Seq<char>, n: Seq<char>, d: Seq<char>) -> Seq<char> {
    "DROP "@ + kind + " `"@ + n + "`, ADD "@ + kind + " "@ + d
}

pub open spec fn options_clause(e: Seq<char>, c: Seq<char>) -> Seq<char> {
    "ENGINE="@ + e + ", DEFAULT CHARSET="@ + c
}

/// The clause one source column contributes: modify when the target has
/// it under a different definition, add when the target lacks it, nothing
/// when the texts agree exactly.
pub open spec fn column_clause(p: (Seq<char>, Seq<char>), tgt: Map<Seq<char>, Seq<char>>) -> Seq<
    Seq<char>,
> {
    if tgt.contains_key(p.0) {
        if tgt[p.0] != p.1 {
            seq![modify_clause(p.0, p.1)]
        } else {
            Seq::empty()
        }
    } else {
        seq![add_clause(p.0, p.1)]
    }
}

/// Clauses for the source columns, in source order.
pub open spec fn column_changes(
    src_cols: Seq<(Seq<char>, Seq<char>)>,
    tgt: Map<Seq<char>, Seq<char>>,
) -> Seq<Seq<char>>
    decreases src_cols.len(),
{
    if src_cols.len() == 0 {
        Seq::empty()
    } else {
        column_changes(src_cols.drop_last(), tgt) + column_clause(src_cols.last(), tgt)
    }
}

/// Drop clauses for the target columns the source lacks, in target order.
pub open spec fn drop_changes(
    tgt_cols: Seq<(Seq<char>, Seq<char>)>,
    src: Map<Seq<char>, Seq<char>>,
) -> Seq<Seq<char>>
    decreases tgt_cols.len(),
{
    if tgt_cols.len() == 0 {
        Seq::empty()
    } else {
        drop_changes(tgt_cols.drop_last(), src) + (if src.contains_key(tgt_cols.last().0) {
            Seq::empty()
        } else {
            seq![drop_clause(tgt_cols.last().0)]
        })
    }
}

/// Drop-and-add clauses for the source constraints of one category whose
/// definition the target lacks or states differently.  Only source
/// entries drive this list: a constraint present only in the target is
/// left alone, deliberately.
pub open spec fn constraint_changes(
    src: Seq<(Seq<char>, Seq<char>)>,
    tgt: Map<Seq<char>, Seq<char>>,
    kind: Seq<char>,
) -> Seq<Seq<char>>
    decreases src.len(),
{
    if src.len() == 0 {
        Seq::empty()
    } else {
        constraint_changes(src.drop_last(), tgt, kind) + (if tgt.contains_key(src.last().0)
            && tgt[src.last().0] == src.last().1 {
            Seq::empty()
        } else {
            seq![drop_add_clause(kind, src.last().0, src.last().1)]
        })
    }
}

/// The combined engine/charset clause: emitted only when the option maps
/// differ and the source declares both options.
pub open spec fn option_changes(src: TableDefView, tgt: TableDefView) -> Seq<Seq<char>> {
    let sm = map_of(src.options);
    let tm = map_of(tgt.options);
    if sm != tm && sm.contains_key("engine"@) && sm.contains_key("charset"@) {
        seq![options_clause(sm["engine"@], sm["charset"@])]
    } else {
        Seq::empty()
    }
}

/// Every clause of the statement that moves `tgt` toward `src`.
pub open spec fn table_changes(tgt: TableDefView, src: TableDefView) -> Seq<Seq<char>> {
    column_changes(src.columns, map_of(tgt.columns)) + drop_changes(
        tgt.columns,
        map_of(src.columns),
    ) + constraint_changes(src.primary, map_of(tgt.primary), "PRIMARY KEY"@)
        + constraint_changes(src.unique, map_of(tgt.unique), "UNIQUE INDEX"@)
        + constraint_changes(src.keys, map_of(tgt.keys), "INDEX"@) + constraint_changes(
        src.foreign,
        map_of(tgt.foreign),
        "FOREIGN KEY"@,
    ) + constraint_changes(src.fulltext, map_of(tgt.fulltext), "FULLTEXT INDEX"@)
        + option_changes(src, tgt)
}

/// The parts joined by the separator.
pub open spec fn join(parts: Seq<Seq<char>>, sep: Seq<char>) -> Seq<char>
    decreases parts.len(),
{
    if parts.len() == 0 {
        Seq::empty()
    } else if parts.len() == 1 {
        parts[0]
    } else {
        join(parts.drop_last(), sep) + sep + parts.last()
    }
}

/// The whole statement: empty when there is nothing to change, else the
/// header, the clauses joined by comma-newline, and a closing semicolon.
pub open spec fn alter_text(name: Seq<char>, tgt: TableDefView, src: TableDefView) -> Seq<char> {
    let cs = table_changes(tgt, src);
    if cs.len() == 0 {
        Seq::empty()
    } else {
        "ALTER TABLE `"@ + name + "`\n"@ + join(cs, ",\n"@) + ";"@
    }
}

/// Join the strings with the separator.
fn join_strings(parts: &Vec<String>, sep: &str) -> (r: String)
    ensures
        r@ == join(strs_view(parts@), sep@),
{
    let n = parts.len();
    let mut r = String::new();
    let mut i: usize = 0;
    while i < n
        invariant
            n == parts@.len(),
            i <= n,
            r@ == join(strs_view(parts@).take(i as int), sep@),
        decreases n - i,
    {
        if i > 0 {
            r.append(sep);
        }
        r.append(parts[i].as_str());
        proof {
            let pv = strs_view(parts@);
            assert(pv.take(i + 1).drop_last() =~= pv.take(i as int));
            assert(pv.take(i + 1).last() == pv[i as int]);
            assert(r@ =~= join(pv.take(i + 1), sep@));
        }
        i = i + 1;
    }
    proof {
        assert(strs_view(parts@).take(n as int) =~= strs_view(parts@));
    }
    r
}

/// Push the clauses of one constraint category, mirroring
/// [`constraint_changes`] over the source entries in order.
fn push_constraint_changes(changes: &mut Vec<String>, src: &StrDict, tgt: &StrDict, kind: &str)
    requires
        src.wf(),
        tgt.wf(),
    ensures
        strs_view(final(changes)@) == strs_view(old(changes)@) + constraint_changes(
            src.entries_view(),
            tgt.map_view(),
            kind@,
        ),
{
    let ghost base = strs_view(old(changes)@);
    let n = src.len();
    let mut i: usize = 0;
    proof {
        assert(src.entries_view().take(0) =~= Seq::<(Seq<char>, Seq<char>)>::empty());
        assert(base + constraint_changes(src.entries_view().take(0), tgt.map_view(), kind@) =~= base);
    }
    while i < n
        invariant
            src.wf(),
            tgt.wf(),
            n == src.entries_view().len(),
            i <= n,
            strs_view(changes@) == base + constraint_changes(
                src.entries_view().take(i as int),
                tgt.map_view(),
                kind@,
            ),
        decreases n - i,
    {
        let ghost sv = src.entries_view();
        proof {
            lemma_map_of_get(sv, i as int);
            assert(sv.take(i + 1).drop_last() =~= sv.take(i as int));
            assert(sv.take(i + 1).last() == sv[i as int]);
        }
        let (name, def) = src.entry_at(i);
        let differs: bool = match tgt.get(name) {
            Some(tv) => !(*tv == *def),
            None => true,
        };
        if differs {
            let mut cl = String::from_str("DROP ");
            cl.append(kind);
            cl.append(" `");
            cl.append(name.as_str());
            cl.append("`, ADD ");
            cl.append(kind);
            cl.append(" ");
            cl.append(def.as_str());
            let ghost clv = cl@;
            let ghost pre = changes@;
            proof {
                assert(clv =~= drop_add_clause(kind@, sv[i as int].0, sv[i as int].1));
            }
            changes.push(cl);
            proof {
                assert(strs_view(changes@) =~= strs_view(pre).push(clv));
                assert(constraint_changes(sv.take(i + 1), tgt.map_view(), kind@)
                    =~= constraint_changes(sv.take(i as int), tgt.map_view(), kind@) + seq![clv]);
                assert(strs_view(changes@) =~= base + constraint_changes(
                    sv.take(i + 1),
                    tgt.map_view(),
                    kind@,
                ));
            }
        } else {
            proof {
                assert(strs_view(changes@) =~= base + constraint_changes(
                    sv.take(i + 1),
                    tgt.map_view(),
                    kind@,
                ));
            }
        }
        i = i + 1;
    }
    proof {
        assert(src.entries_view().take(n as int) =~= src.entries_view());
    }
}

/// The `ALTER TABLE` statement for one table, or the empty string when
/// the definitions call for no clause.
pub fn generate_table_alter(table: &str, target: &TableDefinition, source: &TableDefinition) -> (r:
    String)
    requires
        target.wf(),
        source.wf(),
    ensures
        r@ == alter_text(table@, target.model(), source.model()),
{
    let mut changes: Vec<String> = Vec::new();

    // Source columns: modify or add.
    let ghost tm = target.columns.map_view();
    let n = source.columns.len();
    let mut i: usize = 0;
    proof {
        assert(strs_view(changes@) =~= column_changes(
            source.columns.entries_view().take(0),
            tm,
        ));
    }
    while i < n
        invariant
            target.wf(),
            source.wf(),
            tm == target.columns.map_view(),
            n == source.columns.entries_view().len(),
            i <= n,
            strs_view(changes@) == column_changes(source.columns.entries_view().take(i as int), tm),
        decreases n - i,
    {
        let ghost sv = source.columns.entries_view();
        proof {
            assert(sv.take(i + 1).drop_last() =~= sv.take(i as int));
            assert(sv.take(i + 1).last() == sv[i as int]);
        }
        let (col, def) = source.columns.entry_at(i);
        match target.columns.get(col) {
            Some(tdef) => {
                if !(*tdef == *def) {
                    let mut cl = String::from_str("MODIFY COLUMN `");
                    cl.append(col.as_str());
                    cl.append("` ");
                    cl.append(def.as_str());
                    proof {
                        assert(cl@ =~= modify_clause(sv[i as int].0, sv[i as int].1));
                    }
                    changes.push(cl);
                }
            },
            None => {
                let mut cl = String::from_str("ADD COLUMN `");
                cl.append(col.as_str());
                cl.append("` ");
                cl.append(def.as_str());
                proof {
                    assert(cl@ =~= add_clause(sv[i as int].0, sv[i as int].1));
                }
                changes.push(cl);
            },
        }
        proof {
            assert(strs_view(changes@) =~= column_changes(sv.take(i + 1), tm));
        }
        i = i + 1;
    }
    proof {
        assert(source.columns.entries_view().take(n as int) =~= source.columns.entries_view());
    }

    // Target columns absent from the source: drop.
    let ghost cc = column_changes(source.columns.entries_view(), tm);
    let ghost sm = source.columns.map_view();
    let m = target.columns.len();
    let mut j: usize = 0;
    proof {
        assert(strs_view(changes@) =~= cc + drop_changes(
            target.columns.entries_view().take(0),
            sm,
        ));
    }
    while j < m
        invariant
            target.wf(),
            source.wf(),
            sm == source.columns.map_view(),
            m == target.columns.entries_view().len(),
            j <= m,
            strs_view(changes@) == cc + drop_changes(
                target.columns.entries_view().take(j as int),
                sm,
            ),
        decreases m - j,
    {
        let ghost tv = target.columns.entries_view();
        proof {
            assert(tv.take(j + 1).drop_last() =~= tv.take(j as int));
            assert(tv.take(j + 1).last() == tv[j as int]);
        }
        let (col, _) = target.columns.entry_at(j);
        if !source.columns.contains_key(col) {
            let mut cl = String::from_str("DROP COLUMN `");
            cl.append(col.as_str());
            cl.append("`");
            let ghost clv = cl@;
            let ghost pre = changes@;
            proof {
                assert(clv =~= drop_clause(tv[j as int].0));
            }
            changes.push(cl);
            proof {
                assert(strs_view(changes@) =~= strs_view(pre).push(clv));
                assert(drop_changes(tv.take(j + 1), sm) =~= drop_changes(tv.take(j as int), sm)
                    + seq![clv]);
                assert(strs_view(changes@) =~= cc + drop_changes(tv.take(j + 1), sm));
            }
        } else {
            proof {
                assert(drop_changes(tv.take(j + 1), sm) =~= drop_changes(tv.take(j as int), sm));
                assert(strs_view(changes@) =~= cc + drop_changes(tv.take(j + 1), sm));
            }
        }
        j = j + 1;
    }
    proof {
        assert(target.columns.entries_view().take(m as int) =~= target.columns.entries_view());
    }

    // Constraints, category by category; only source entries drive these.
    push_constraint_changes(&mut changes, &source.primary, &target.primary, "PRIMARY KEY");
    push_constraint_changes(&mut changes, &source.unique, &target.unique, "UNIQUE INDEX");
    push_constraint_changes(&mut changes, &source.keys, &target.keys, "INDEX");
    push_constraint_changes(&mut changes, &source.foreign, &target.foreign, "FOREIGN KEY");
    push_constraint_changes(&mut changes, &source.fulltext, &target.fulltext, "FULLTEXT INDEX");

    // Options: one combined clause, only when the source declares both.
    let ghost before_options = strs_view(changes@);
    if !source.options.map_eq(&target.options) {
        let engine_key = String::from_str("engine");
        let charset_key = String::from_str("charset");
        let engine = source.options.get(&engine_key);
        let charset = source.options.get(&charset_key);
        match (engine, charset) {
            (Some(e), Some(c)) => {
                let mut cl = String::from_str("ENGINE=");
                cl.append(e.as_str());
                cl.append(", DEFAULT CHARSET=");
                cl.append(c.as_str());
                proof {
                    assert(cl@ =~= options_clause(
                        map_of(source.model().options)["engine"@],
                        map_of(source.model().options)["charset"@],
                    ));
                }
                changes.push(cl);
                proof {
                    assert(strs_view(changes@) =~= before_options + option_changes(
                        source.model(),
                        target.model(),
                    ));
                }
            },
            _ => {
                proof {
                    assert(option_changes(source.model(), target.model()) =~= Seq::<
                        Seq<char>,
                    >::empty());
                    assert(strs_view(changes@) =~= before_options + option_changes(
                        source.model(),
                        target.model(),
                    ));
                }
            },
        }
    } else {
        proof {
            assert(option_changes(source.model(), target.model()) =~= Seq::<Seq<char>>::empty());
            assert(strs_view(changes@) =~= before_options + option_changes(
                source.model(),
                target.model(),
            ));
        }
    }
    proof {
        assert(strs_view(changes@) =~= table_changes(target.model(), source.model()));
    }

    if changes.is_empty() {
        let r = String::new();
        proof {
            assert(r@ =~= alter_text(table@, target.model(), source.model()));
        }
        r
    } else {
        let mut alter = String::from_str("ALTER TABLE `");
        alter.append(table);
        alter.append("`\n");
        let body = join_strings(&changes, ",\n");
        alter.append(body.as_str());
        alter.append(";");
        proof {
            assert(alter@ =~= alter_text(table@, target.model(), source.model()));
        }
        alter
    }
}

} // verus!
