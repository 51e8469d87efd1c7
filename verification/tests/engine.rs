use diff_schema::alter::generate_table_alter;
use diff_schema::conn::parse_conn_str;
use diff_schema::diff::{generate_alters, SchemaObjects};
use diff_schema::parse::parse_table_definition;
use diff_schema::snapshot::{parse_sql_dump, Snapshot};
use diff_schema::table::TableDefinition;

fn def_with_columns(cols: &[(&str, &str)]) -> TableDefinition {
    let mut d = TableDefinition::new();
    for (k, v) in cols {
        d.columns.insert(k.to_string(), v.to_string());
    }
    d
}

#[test]
fn parse_columns_and_constraints() {
    let sql = "CREATE TABLE `users` (\n  `id` INT NOT NULL,\n  `name` VARCHAR(50) DEFAULT NULL,\n  PRIMARY KEY (`id`),\n  KEY `idx_name` (`name`)\n) ENGINE=InnoDB DEFAULT CHARSET=utf8;";
    let d = parse_table_definition(sql);
    assert_eq!(d.columns.get(&"id".to_string()), Some(&"INT NOT NULL".to_string()));
    assert_eq!(d.columns.get(&"name".to_string()), Some(&"VARCHAR(50) DEFAULT NULL".to_string()));
    assert_eq!(d.columns.len(), 2);
    assert_eq!(d.primary.get(&"".to_string()), Some(&"(`id`)".to_string()));
    assert_eq!(d.keys.get(&"idx_name".to_string()), Some(&"(`name`)".to_string()));
    assert_eq!(d.options.get(&"engine".to_string()), Some(&"InnoDB".to_string()));
    assert_eq!(d.options.get(&"charset".to_string()), Some(&"utf8".to_string()));
}

#[test]
fn parse_keeps_parenthesized_commas_whole() {
    let sql = "CREATE TABLE `goods` (`price` DECIMAL(10,2) NOT NULL, `qty` INT)";
    let d = parse_table_definition(sql);
    assert_eq!(d.columns.get(&"price".to_string()), Some(&"DECIMAL(10,2) NOT NULL".to_string()));
    assert_eq!(d.columns.get(&"qty".to_string()), Some(&"INT".to_string()));
}

#[test]
fn parse_options_case_insensitive() {
    let sql = "CREATE TABLE `t` (`a` INT) engine=MyISAM default charset=latin1";
    let d = parse_table_definition(sql);
    assert_eq!(d.options.get(&"engine".to_string()), Some(&"MyISAM".to_string()));
    assert_eq!(d.options.get(&"charset".to_string()), Some(&"latin1".to_string()));
}

#[test]
fn parse_constraint_kinds_case_insensitive() {
    let sql = "CREATE TABLE `t` (\n  `a` INT,\n  primary key (`a`),\n  unique key `u1` (`a`),\n  fulltext key `ft` (`a`),\n  CONSTRAINT (`a`)\n)";
    let d = parse_table_definition(sql);
    assert_eq!(d.primary.get(&"".to_string()), Some(&"(`a`)".to_string()));
    assert_eq!(d.unique.get(&"u1".to_string()), Some(&"(`a`)".to_string()));
    assert_eq!(d.fulltext.get(&"ft".to_string()), Some(&"(`a`)".to_string()));
    assert_eq!(d.foreign.get(&"".to_string()), Some(&"(`a`)".to_string()));
}

#[test]
fn column_order_difference_counts_as_modification() {
    let mut source = Snapshot::new();
    source.insert("t".to_string(), def_with_columns(&[("a", "INT"), ("b", "INT")]));
    let mut target = Snapshot::new();
    target.insert("t".to_string(), def_with_columns(&[("b", "INT"), ("a", "INT")]));
    let objects = SchemaObjects::new(&source, &target);
    // The pair is modified (positions differ), yet no clause can express
    // a pure reordering, so the statement stays empty.
    let script = generate_alters(&objects);
    assert_eq!(script, "-- t\n\n");
}

#[test]
fn parse_malformed_yields_empty_categories() {
    let d = parse_table_definition("not DDL at all");
    assert_eq!(d.columns.len(), 0);
    assert_eq!(d.primary.len(), 0);
    assert_eq!(d.options.len(), 0);
}

#[test]
fn dump_split_finds_tables_and_stops_at_body() {
    let content = "-- dump\nCREATE TABLE `a` (\n  `x` INT\n) ENGINE=InnoDB DEFAULT CHARSET=utf8;\nCREATE TABLE `b` (`y` TEXT);\n";
    let snap = parse_sql_dump(content);
    assert_eq!(snap.len(), 2);
    let a = snap.get(&"a".to_string()).expect("table a");
    assert_eq!(a.columns.get(&"x".to_string()), Some(&"INT".to_string()));
    // The block ends at the close parenthesis, so file-sourced tables
    // carry no options.
    assert_eq!(a.options.len(), 0);
    let b = snap.get(&"b".to_string()).expect("table b");
    assert_eq!(b.columns.get(&"y".to_string()), Some(&"TEXT".to_string()));
}

#[test]
fn alter_adds_modifies_and_drops_columns() {
    let source = def_with_columns(&[("a", "INT"), ("b", "TEXT")]);
    let target = def_with_columns(&[("b", "CHAR"), ("c", "INT")]);
    let alter = generate_table_alter("t", &target, &source);
    assert_eq!(
        alter,
        "ALTER TABLE `t`\nADD COLUMN `a` INT,\nMODIFY COLUMN `b` TEXT,\nDROP COLUMN `c`;"
    );
}

#[test]
fn alter_replaces_changed_constraint() {
    let mut source = def_with_columns(&[("a", "INT")]);
    let mut target = def_with_columns(&[("a", "INT")]);
    source.primary.insert("".to_string(), "(`a`,`b`)".to_string());
    target.primary.insert("".to_string(), "(`a`)".to_string());
    let alter = generate_table_alter("t", &target, &source);
    assert_eq!(alter, "ALTER TABLE `t`\nDROP PRIMARY KEY ``, ADD PRIMARY KEY (`a`,`b`);");
}

#[test]
fn target_only_constraint_produces_no_clause() {
    let source = def_with_columns(&[("a", "INT")]);
    let mut target = def_with_columns(&[("a", "INT")]);
    target.keys.insert("extra".to_string(), "(`a`)".to_string());
    let alter = generate_table_alter("t", &target, &source);
    assert_eq!(alter, "");
}

#[test]
fn option_clause_needs_both_source_options() {
    let mut source = def_with_columns(&[("a", "INT")]);
    let target = def_with_columns(&[("a", "INT")]);
    source.options.insert("engine".to_string(), "InnoDB".to_string());
    // The maps differ, but the source lacks charset: no clause.
    let alter = generate_table_alter("t", &target, &source);
    assert_eq!(alter, "");
}

#[test]
fn option_clause_is_combined_when_source_has_both() {
    let mut source = def_with_columns(&[("a", "INT")]);
    let target = def_with_columns(&[("a", "INT")]);
    source.options.insert("engine".to_string(), "InnoDB".to_string());
    source.options.insert("charset".to_string(), "utf8".to_string());
    let alter = generate_table_alter("t", &target, &source);
    assert_eq!(alter, "ALTER TABLE `t`\nENGINE=InnoDB, DEFAULT CHARSET=utf8;");
}

#[test]
fn diff_of_equal_snapshots_is_empty() {
    let sql = "CREATE TABLE `users` (\n  `id` INT NOT NULL,\n  PRIMARY KEY (`id`)\n) ENGINE=InnoDB DEFAULT CHARSET=utf8;";
    let mut source = Snapshot::new();
    source.insert("users".to_string(), parse_table_definition(sql));
    let mut target = Snapshot::new();
    target.insert("users".to_string(), parse_table_definition(sql));
    let objects = SchemaObjects::new(&source, &target);
    assert_eq!(generate_alters(&objects), "");
}

#[test]
fn target_only_table_is_dropped() {
    let source = Snapshot::new();
    let mut target = Snapshot::new();
    target.insert("legacy".to_string(), def_with_columns(&[("x", "INT")]));
    let objects = SchemaObjects::new(&source, &target);
    let script = generate_alters(&objects);
    assert_eq!(script, "-- legacy\nDROP TABLE `legacy`;\n\n");
    assert!(!script.contains("ALTER"));
}

#[test]
fn source_only_table_is_created_in_full() {
    let mut source = Snapshot::new();
    let ddl = "CREATE TABLE `audit_log` (\n  `id` INT NOT NULL,\n  PRIMARY KEY (`id`)\n)";
    source.insert("audit_log".to_string(), parse_table_definition(ddl));
    let target = Snapshot::new();
    let objects = SchemaObjects::new(&source, &target);
    let script = generate_alters(&objects);
    assert_eq!(
        script,
        "-- audit_log\nCREATE TABLE `audit_log` (\n  `id` INT NOT NULL, PRIMARY KEY  (`id`)\n) ;\n\n"
    );
    assert!(script.contains("CREATE TABLE `audit_log`"));
    assert!(script.contains("PRIMARY KEY"));
}

#[test]
fn modified_table_gets_one_alter_with_option_clause() {
    let source_sql = "CREATE TABLE `t` (\n  `id` INT,\n  `name` VARCHAR(50)\n) ENGINE=InnoDB DEFAULT CHARSET=utf8";
    let target_sql = "CREATE TABLE `t` (\n  `id` INT\n)";
    let mut source = Snapshot::new();
    source.insert("t".to_string(), parse_table_definition(source_sql));
    let mut target = Snapshot::new();
    target.insert("t".to_string(), parse_table_definition(target_sql));
    let objects = SchemaObjects::new(&source, &target);
    let script = generate_alters(&objects);
    assert_eq!(
        script,
        "-- t\nALTER TABLE `t`\nADD COLUMN `name` VARCHAR(50),\nENGINE=InnoDB, DEFAULT CHARSET=utf8;\n"
    );
}

#[test]
fn to_sql_renders_columns_constraints_and_options() {
    let sql = "CREATE TABLE `users` (\n  `id` INT NOT NULL,\n  `name` VARCHAR(50),\n  PRIMARY KEY (`id`)\n) ENGINE=InnoDB DEFAULT CHARSET=utf8";
    let d = parse_table_definition(sql);
    assert_eq!(
        d.to_sql("users"),
        "CREATE TABLE `users` (\n  `id` INT NOT NULL  ,`name` VARCHAR(50), PRIMARY KEY  (`id`)\n) ENGINE=InnoDB DEFAULT CHARSET=utf8"
    );
}

#[test]
fn drops_come_before_creates() {
    let mut source = Snapshot::new();
    source.insert("fresh".to_string(), def_with_columns(&[("a", "INT")]));
    let mut target = Snapshot::new();
    target.insert("legacy".to_string(), def_with_columns(&[("b", "INT")]));
    let objects = SchemaObjects::new(&source, &target);
    let script = generate_alters(&objects);
    assert_eq!(
        script,
        "-- legacy\nDROP TABLE `legacy`;\n\n-- fresh\nCREATE TABLE `fresh` (\n  `a` INT\n) ;\n\n"
    );
}

#[test]
fn inserting_existing_table_replaces_definition() {
    let mut snap = Snapshot::new();
    snap.insert("t".to_string(), def_with_columns(&[("a", "INT")]));
    snap.insert("t".to_string(), def_with_columns(&[("a", "BIGINT")]));
    assert_eq!(snap.len(), 1);
    let d = snap.get(&"t".to_string()).expect("table t");
    assert_eq!(d.columns.get(&"a".to_string()), Some(&"BIGINT".to_string()));
}

#[test]
fn conn_str_full_form() {
    let c = parse_conn_str("admin:pa@ss@db.example.com:3307~inventory").expect("parse");
    assert_eq!(c.user, "admin");
    assert_eq!(c.pass, "pa@ss");
    assert_eq!(c.host, "db.example.com");
    assert_eq!(c.port, 3307);
    assert_eq!(c.db, "inventory");
}

#[test]
fn conn_str_port_defaults() {
    let c = parse_conn_str("u:p@localhost~mydb").expect("parse");
    assert_eq!(c.host, "localhost");
    assert_eq!(c.port, 3306);
    assert_eq!(c.db, "mydb");
    let c2 = parse_conn_str("u:p@localhost:notaport~mydb").expect("parse");
    assert_eq!(c2.port, 3306);
}

#[test]
fn conn_str_rejects_malformed() {
    assert!(parse_conn_str("no separators").is_none());
    assert!(parse_conn_str("user:pass-no-at~db").is_none());
    assert!(parse_conn_str("user:pass@host-no-tilde").is_none());
}
