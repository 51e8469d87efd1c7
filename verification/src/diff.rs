//! The schema comparator: classify every table as dropped, created, or
//! modified, and assemble the final script text.

use vstd::prelude::*;

use crate::alter::{alter_text, generate_table_alter};
use crate::render::create_sql;
use crate::snapshot::Snapshot;
use crate::table::{def_equal, TableDefView, TableDefinition};

verus! {

/// The statement block for every target table the source lacks, in
/// target order: a comment line, then `DROP TABLE`.
pub open spec fn drops_text(
    tgt: Seq<(Seq<char>, TableDefView)>,
    src: Map<Seq<char>, TableDefView>,
) -> Seq<char>
    decreases tgt.len(),
{
    if tgt.len() == 0 {
        Seq::empty()
    } else {
        drops_text(tgt.drop_last(), src) + (if src.contains_key(tgt.last().0) {
            Seq::<char>::empty()
        } else {
            "-- "@ + tgt.last().0 + "\n"@ + "DROP TABLE `"@ + tgt.last().0 + "`;\n\n"@
        })
    }
}

/// The statement block for every source table the target lacks, in
/// source order: a comment line, then the full `CREATE TABLE`.
pub open spec fn creates_text(
    src: Seq<(Seq<char>, TableDefView)>,
    tgt: Map<Seq<char>, TableDefView>,
) -> Seq<char>
    decreases src.len(),
{
    if src.len() == 0 {
        Seq::empty()
    } else {
        creates_text(src.drop_last(), tgt) + (if tgt.contains_key(src.last().0) {
            Seq::<char>::empty()
        } else {
            "-- "@ + src.last().0 + "\n"@ + create_sql(src.last().0, src.last().1) + ";\n\n"@
        })
    }
}

/// The modified pairs: every table of both snapshots whose definitions
/// are structurally unequal, in target order, as (name, target, source).
pub open spec fn modified_view(
    tgt: Seq<(Seq<char>, TableDefView)>,
    src: Map<Seq<char>, TableDefView>,
) -> Seq<(Seq<char>, TableDefView, TableDefView)>
    decreases tgt.len(),
{
    if tgt.len() == 0 {
        Seq::empty()
    } else {
        modified_view(tgt.drop_last(), src) + (if src.contains_key(tgt.last().0) && !def_equal(
            tgt.last().1,
            src[tgt.last().0],
        ) {
            seq![(tgt.last().0, tgt.last().1, src[tgt.last().0])]
        } else {
            Seq::empty()
        })
    }
}

/// The `ALTER TABLE` block of every modified pair, each under its
/// comment line.
pub open spec fn alters_text(mods: Seq<(Seq<char>, TableDefView, TableDefView)>) -> Seq<char>
    decreases mods.len(),
{
    if mods.len() == 0 {
        Seq::empty()
    } else {
        alters_text(mods.drop_last()) + "-- "@ + mods.last().0 + "\n"@ + alter_text(
            mods.last().0,
            mods.last().1,
            mods.last().2,
        ) + "\n"@
    }
}

/// The outcome of comparing two snapshots: the drop and create blocks as
/// finished text, and the modified pairs queued for the alter generator.
pub struct SchemaObjects {
    pub objects_alters: String,
    pub tables: Vec<(String, TableDefinition, TableDefinition)>,
}

impl SchemaObjects {
    /// The modified pairs as (name, target, source) snapshots.
    pub open spec fn mods_view(&self) -> Seq<(Seq<char>, TableDefView, TableDefView)> {
        Seq::new(
            self.tables@.len(),
            |i: int|
                (self.tables@[i].0@, self.tables@[i].1.model(), self.tables@[i].2.model()),
        )
    }

    pub open spec fn wf(&self) -> bool {
        forall|i: int|
            0 <= i < self.tables@.len() ==> (#[trigger] self.tables@[i]).1.wf()
                && self.tables@[i].2.wf()
    }

    /// Compare the snapshots: a `DROP TABLE` block for every table only
    /// the target has, a `CREATE TABLE` block for every table only the
    /// source has, and a modified pair for every shared table whose
    /// definitions differ.  Equal tables contribute nothing.
    pub fn new(source_tables: &Snapshot, target_tables: &Snapshot) -> (r: SchemaObjects)
        requires
            source_tables.wf(),
            target_tables.wf(),
        ensures
            r.wf(),
            r.mods_view() == modified_view(
                target_tables.entries_view(),
                source_tables.map_view(),
            ),
            r.objects_alters@ == drops_text(
                target_tables.entries_view(),
                source_tables.map_view(),
            ) + creates_text(source_tables.entries_view(), target_tables.map_view()),
    {
        let ghost sm = source_tables.map_view();
        let ghost tm = target_tables.map_view();
        let mut objects_alters = String::new();
        let mut tables: Vec<(String, TableDefinition, TableDefinition)> = Vec::new();

        let n = target_tables.len();
        let mut i: usize = 0;
        proof {
            assert(target_tables.entries_view().take(0) =~= Seq::<
                (Seq<char>, TableDefView),
            >::empty());
            assert(objects_alters@ =~= drops_text(target_tables.entries_view().take(0), sm));
            assert(Seq::new(tables@.len(), |j: int| (tables@[j].0@, tables@[j].1.model(), tables@[j].2.model()))
                =~= modified_view(target_tables.entries_view().take(0), sm));
        }
        while i < n
            invariant
                source_tables.wf(),
                target_tables.wf(),
                sm == source_tables.map_view(),
                n == target_tables.entries_view().len(),
                i <= n,
                objects_alters@ == drops_text(target_tables.entries_view().take(i as int), sm),
                Seq::new(tables@.len(), |j: int| (tables@[j].0@, tables@[j].1.model(), tables@[j].2.model()))
                    == modified_view(target_tables.entries_view().take(i as int), sm),
                forall|j: int|
                    0 <= j < tables@.len() ==> (#[trigger] tables@[j]).1.wf()
                        && tables@[j].2.wf(),
            decreases n - i,
        {
            let ghost tv = target_tables.entries_view();
            proof {
                assert(tv.take(i + 1).drop_last() =~= tv.take(i as int));
                assert(tv.take(i + 1).last() == tv[i as int]);
            }
            let (name, target_def) = target_tables.at(i);
            match source_tables.get(name) {
                Some(source_def) => {
                    if !target_def.def_eq(source_def) {
                        let ghost pre = tables@;
                        tables.push((name.clone(), target_def.clone(), source_def.clone()));
                        proof {
                            assert(Seq::new(tables@.len(), |j: int| (tables@[j].0@, tables@[j].1.model(), tables@[j].2.model()))
                                =~= modified_view(tv.take(i + 1), sm));
                        }
                    } else {
                        proof {
                            assert(modified_view(tv.take(i + 1), sm) =~= modified_view(
                                tv.take(i as int),
                                sm,
                            ));
                        }
                    }
                    proof {
                        assert(objects_alters@ =~= drops_text(tv.take(i + 1), sm));
                    }
                },
                None => {
                    objects_alters.append("-- ");
                    objects_alters.append(name.as_str());
                    objects_alters.append("\n");
                    objects_alters.append("DROP TABLE `");
                    objects_alters.append(name.as_str());
                    objects_alters.append("`;\n\n");
                    proof {
                        assert(objects_alters@ =~= drops_text(tv.take(i + 1), sm));
                        assert(modified_view(tv.take(i + 1), sm) =~= modified_view(
                            tv.take(i as int),
                            sm,
                        ));
                        assert(Seq::new(tables@.len(), |j: int| (tables@[j].0@, tables@[j].1.model(), tables@[j].2.model()))
                            =~= modified_view(tv.take(i + 1), sm));
                    }
                },
            }
            i = i + 1;
        }
        proof {
            assert(target_tables.entries_view().take(n as int) =~= target_tables.entries_view());
        }

        // Tables only the source has: full CREATE blocks, in source order.
        let ghost dtext = drops_text(target_tables.entries_view(), sm);
        let m = source_tables.len();
        let mut k: usize = 0;
        proof {
            assert(source_tables.entries_view().take(0) =~= Seq::<
                (Seq<char>, TableDefView),
            >::empty());
            assert(objects_alters@ =~= dtext + creates_text(
                source_tables.entries_view().take(0),
                tm,
            ));
        }
        while k < m
            invariant
                source_tables.wf(),
                target_tables.wf(),
                tm == target_tables.map_view(),
                m == source_tables.entries_view().len(),
                k <= m,
                objects_alters@ == dtext + creates_text(
                    source_tables.entries_view().take(k as int),
                    tm,
                ),
            decreases m - k,
        {
            let ghost sv = source_tables.entries_view();
            proof {
                assert(sv.take(k + 1).drop_last() =~= sv.take(k as int));
                assert(sv.take(k + 1).last() == sv[k as int]);
            }
            let (name, source_def) = source_tables.at(k);
            if !target_tables.contains_table(name) {
                let created = source_def.to_sql(name.as_str());
                objects_alters.append("-- ");
                objects_alters.append(name.as_str());
                objects_alters.append("\n");
                objects_alters.append(created.as_str());
                objects_alters.append(";\n\n");
            }
            proof {
                assert(objects_alters@ =~= dtext + creates_text(sv.take(k + 1), tm));
            }
            k = k + 1;
        }
        proof {
            assert(source_tables.entries_view().take(m as int) =~= source_tables.entries_view());
        }

        let r = SchemaObjects { objects_alters, tables };
        proof {
            assert(r.mods_view() =~= modified_view(target_tables.entries_view(), sm));
        }
        r
    }
}

/// The whole script: the drop and create blocks, then one commented
/// `ALTER TABLE` block per modified pair.
pub fn generate_alters(schema_objects: &SchemaObjects) -> (r: String)
    requires
        schema_objects.wf(),
    ensures
        r@ == schema_objects.objects_alters@ + alters_text(schema_objects.mods_view()),
{
    let mut alters = schema_objects.objects_alters.clone();
    let n = schema_objects.tables.len();
    let mut i: usize = 0;
    proof {
        assert(schema_objects.mods_view().take(0) =~= Seq::<
            (Seq<char>, TableDefView, TableDefView),
        >::empty());
        assert(alters@ =~= schema_objects.objects_alters@ + alters_text(
            schema_objects.mods_view().take(0),
        ));
    }
    while i < n
        invariant
            schema_objects.wf(),
            n == schema_objects.mods_view().len(),
            n == schema_objects.tables@.len(),
            i <= n,
            alters@ == schema_objects.objects_alters@ + alters_text(
                schema_objects.mods_view().take(i as int),
            ),
        decreases n - i,
    {
        let ghost mv = schema_objects.mods_view();
        proof {
            assert(mv.take(i + 1).drop_last() =~= mv.take(i as int));
            assert(mv.take(i + 1).last() == mv[i as int]);
        }
        let entry = &schema_objects.tables[i];
        let statement = generate_table_alter(entry.0.as_str(), &entry.1, &entry.2);
        alters.append("-- ");
        alters.append(entry.0.as_str());
        alters.append("\n");
        alters.append(statement.as_str());
        alters.append("\n");
        proof {
            assert(alters@ =~= schema_objects.objects_alters@ + alters_text(mv.take(i + 1)));
        }
        i = i + 1;
    }
    proof {
        assert(schema_objects.mods_view().take(n as int) =~= schema_objects.mods_view());
    }
    alters
}

} // verus!
