use table_editor_core::commit::{group_edits, reconcile, CommitAction, CommitSession, CommitState, TransactionOutcome};
use table_editor_core::mapper::NativeValue;
use table_editor_core::model::{load_page, PageError, RawRow};
use table_editor_core::query::{ConnState, ConnectionGuard, AccessError, QueryAction, QuerySession};
use table_editor_core::schema::{
    reflect, CatalogColumn, CatalogTable, IdentityStrategy, TableDescriptor,
};
use table_editor_core::value::{value_eq, Value, ValueKind};
use table_editor_core::editors::ValidationError;

fn column(name: &str, decl: &str, pk: bool) -> CatalogColumn {
    CatalogColumn {
        name: name.to_string(),
        declared_type: decl.to_string(),
        nullable: !pk,
        is_primary_key: pk,
        default_value: None,
    }
}

fn people_table() -> TableDescriptor {
    let catalog = vec![CatalogTable {
        name: "people".to_string(),
        columns: vec![
            column("id", "INTEGER", true),
            column("name", "TEXT", false),
            column("age", "INT", false),
        ],
        has_row_id: true,
    }];
    let mut schema = reflect(&catalog);
    schema.tables.remove(0)
}

fn people_page() -> table_editor_core::model::TableModel {
    let raws = vec![
        RawRow {
            identity: vec![NativeValue::Integer(1)],
            cells: vec![
                NativeValue::Integer(1),
                NativeValue::Text("ada".to_string()),
                NativeValue::Integer(36),
            ],
        },
        RawRow {
            identity: vec![NativeValue::Integer(2)],
            cells: vec![
                NativeValue::Integer(2),
                NativeValue::Text("grace".to_string()),
                NativeValue::Integer(45),
            ],
        },
    ];
    load_page(people_table(), raws).expect("well-shaped page must load")
}

#[test]
fn reflect_orders_tables_and_finds_keys() {
    let catalog = vec![
        CatalogTable {
            name: "zeta".to_string(),
            columns: vec![column("k", "INTEGER", true), column("v", "TEXT", false)],
            has_row_id: true,
        },
        CatalogTable {
            name: "alpha".to_string(),
            columns: vec![column("x", "TEXT", false)],
            has_row_id: true,
        },
        CatalogTable {
            name: "nokey".to_string(),
            columns: vec![column("x", "TEXT", false)],
            has_row_id: false,
        },
    ];
    let schema = reflect(&catalog);
    let names: Vec<&str> = schema.tables.iter().map(|t| t.name.as_str()).collect();
    assert_eq!(names, vec!["alpha", "nokey", "zeta"]);
    match &schema.tables[2].identity {
        IdentityStrategy::PrimaryKey(ks) => assert_eq!(ks, &vec![0usize]),
        _ => panic!("zeta has an explicit primary key"),
    }
    assert!(matches!(schema.tables[0].identity, IdentityStrategy::RowId));
    assert!(matches!(schema.tables[1].identity, IdentityStrategy::ReadOnly));
    assert_eq!(schema.tables[2].columns[0].kind, ValueKind::Integer);
    assert_eq!(schema.tables[2].columns[1].kind, ValueKind::Text);
}

#[test]
fn load_page_rejects_bad_shapes() {
    let bad = vec![RawRow {
        identity: vec![NativeValue::Integer(1)],
        cells: vec![NativeValue::Integer(1)],
    }];
    assert!(matches!(load_page(people_table(), bad), Err(PageError::ColumnCountMismatch)));
    let dup = vec![
        RawRow {
            identity: vec![NativeValue::Integer(1)],
            cells: vec![
                NativeValue::Integer(1),
                NativeValue::Text("a".to_string()),
                NativeValue::Integer(1),
            ],
        },
        RawRow {
            identity: vec![NativeValue::Integer(1)],
            cells: vec![
                NativeValue::Integer(1),
                NativeValue::Text("b".to_string()),
                NativeValue::Integer(2),
            ],
        },
    ];
    assert!(matches!(load_page(people_table(), dup), Err(PageError::DuplicateRowIdentity)));
}

#[test]
fn stage_then_discard_restores_everything() {
    let mut m = people_page();
    let id = vec![Value::Integer(1)];
    assert_eq!(m.dirty_count(), 0);
    let before = m.cell_value(&id, 1).unwrap();

    m.stage_edit(&id, 1, "lovelace").expect("text edit must validate");
    assert_eq!(m.dirty_count(), 1);
    assert!(m.is_dirty(&id));
    match m.cell_value(&id, 1).unwrap() {
        Value::Text(s) => assert_eq!(s, "lovelace"),
        _ => panic!("the staged proposal must show through"),
    }

    assert!(m.discard_edit(&id, 1));
    assert_eq!(m.dirty_count(), 0);
    assert!(!m.is_dirty(&id));
    let after = m.cell_value(&id, 1).unwrap();
    assert!(value_eq(&before, &after));
    assert!(!m.discard_edit(&id, 1));
}

#[test]
fn restaging_keeps_first_original() {
    let mut m = people_page();
    let id = vec![Value::Integer(2)];
    m.stage_edit(&id, 2, "50").unwrap();
    m.stage_edit(&id, 2, "51").unwrap();
    assert_eq!(m.dirty_count(), 1);
    match m.cell_value(&id, 2).unwrap() {
        Value::Integer(i) => assert_eq!(i, 51),
        _ => panic!("the newest proposal must show"),
    }
    assert!(value_eq(&m.edits[0].original, &Value::Integer(45)));
}

#[test]
fn stage_edit_validates_and_addresses() {
    let mut m = people_page();
    let id = vec![Value::Integer(1)];
    assert_eq!(m.stage_edit(&id, 2, "young").unwrap_err(), ValidationError::NotAnInteger);
    assert_eq!(m.dirty_count(), 0);
    assert_eq!(m.stage_edit(&id, 9, "1").unwrap_err(), ValidationError::UnknownColumn);
    let ghost_id = vec![Value::Integer(42)];
    assert_eq!(m.stage_edit(&ghost_id, 1, "x").unwrap_err(), ValidationError::UnknownRow);
}

#[test]
fn read_only_table_rejects_edits_without_state_change() {
    let catalog = vec![CatalogTable {
        name: "view_like".to_string(),
        columns: vec![column("x", "TEXT", false)],
        has_row_id: false,
    }];
    let mut schema = reflect(&catalog);
    let table = schema.tables.remove(0);
    let raws = vec![RawRow { identity: vec![], cells: vec![NativeValue::Text("a".to_string())] }];
    let mut m = load_page(table, raws).unwrap();
    let id: Vec<Value> = vec![];
    assert_eq!(m.stage_edit(&id, 0, "b").unwrap_err(), ValidationError::ReadOnlyTable);
    assert_eq!(m.stage_edit(&id, 0, "c").unwrap_err(), ValidationError::ReadOnlyTable);
    assert_eq!(m.dirty_count(), 0);
    match m.cell_value(&id, 0).unwrap() {
        Value::Text(s) => assert_eq!(s, "a"),
        _ => panic!("the snapshot must be untouched"),
    }
}

#[test]
fn plans_compile_to_parameterized_updates() {
    let table = people_table();
    let mut m = people_page();
    m.stage_edit(&vec![Value::Integer(1)], 1, "a1").unwrap();
    m.stage_edit(&vec![Value::Integer(1)], 2, "11").unwrap();
    let plans = group_edits(&m.edits);
    assert_eq!(plans.len(), 1);
    let sql = table_editor_core::sql::compile_plan(&table, &plans[0]).unwrap();
    assert_eq!(sql, "UPDATE \"people\" SET \"name\" = ?, \"age\" = ? WHERE \"id\" = ?");
}

#[test]
fn identifiers_are_quoted_with_doubling() {
    let sets = vec!["we\"ird".to_string()];
    let keys = vec!["k".to_string()];
    let sql = table_editor_core::sql::render_update("t", &sets, &keys);
    assert_eq!(sql, "UPDATE \"t\" SET \"we\"\"ird\" = ? WHERE \"k\" = ?");
}

#[test]
fn grouping_puts_one_plan_per_row() {
    let mut m = people_page();
    m.stage_edit(&vec![Value::Integer(1)], 1, "a1").unwrap();
    m.stage_edit(&vec![Value::Integer(1)], 2, "11").unwrap();
    m.stage_edit(&vec![Value::Integer(2)], 2, "52").unwrap();
    let plans = group_edits(&m.edits);
    assert_eq!(plans.len(), 2);
    let total_slots: usize = plans.iter().map(|p| p.columns.len()).sum();
    assert_eq!(total_slots, 3);
    for p in &plans {
        assert_eq!(p.columns.len(), p.originals.len());
        assert_eq!(p.columns.len(), p.proposed.len());
    }
}

#[test]
fn external_change_is_a_conflict_and_others_commit() {
    let mut m = people_page();
    m.stage_edit(&vec![Value::Integer(1)], 1, "a1").unwrap();
    m.stage_edit(&vec![Value::Integer(2)], 2, "52").unwrap();
    let plans = group_edits(&m.edits);

    // Re-read rows: row 2's age was changed out of band since it was read.
    let reread = vec![
        RawRow {
            identity: vec![NativeValue::Integer(1)],
            cells: vec![
                NativeValue::Integer(1),
                NativeValue::Text("ada".to_string()),
                NativeValue::Integer(36),
            ],
        },
        RawRow {
            identity: vec![NativeValue::Integer(2)],
            cells: vec![
                NativeValue::Integer(2),
                NativeValue::Text("grace".to_string()),
                NativeValue::Integer(46),
            ],
        },
    ];
    let current = load_page(people_table(), reread).unwrap();
    let (applies, conflicts) = reconcile(plans, &current.rows);
    assert_eq!(applies.len(), 1);
    assert_eq!(conflicts.len(), 1);
    assert!(value_eq(&applies[0].identity[0], &Value::Integer(1)));
    assert!(value_eq(&conflicts[0].identity[0], &Value::Integer(2)));
}

#[test]
fn commit_session_all_statements_succeed() {
    let mut m = people_page();
    m.stage_edit(&vec![Value::Integer(1)], 1, "a1").unwrap();
    m.stage_edit(&vec![Value::Integer(2)], 2, "52").unwrap();
    let plans = group_edits(&m.edits);
    let planned = plans.len();
    let mut s = CommitSession::new(plans);
    loop {
        match s.next_action() {
            CommitAction::Execute(_) => s.statement_done(true),
            CommitAction::Commit => {
                s.commit_done(true);
            },
            CommitAction::Done => break,
        }
    }
    assert_eq!(s.state, CommitState::Committed);
    assert_eq!(s.rows_affected(), planned);
    assert_eq!(s.rows_affected(), 2);
    match s.outcome(Vec::new()) {
        TransactionOutcome::Committed { rows_affected, conflicts } => {
            assert_eq!(rows_affected, 2);
            assert!(conflicts.is_empty());
        },
        _ => panic!("a committed session reports success"),
    }
}

#[test]
fn commit_session_failure_rolls_back() {
    let mut m = people_page();
    m.stage_edit(&vec![Value::Integer(1)], 1, "a1").unwrap();
    m.stage_edit(&vec![Value::Integer(2)], 2, "52").unwrap();
    let plans = group_edits(&m.edits);
    let mut s = CommitSession::new(plans);
    // Failure injected on the first statement: the session demands no
    // commit, and the failing plan is reported.
    match s.next_action() {
        CommitAction::Execute(g) => {
            assert_eq!(g, 0);
            s.statement_done(false);
        },
        _ => panic!("the first action is a statement"),
    }
    assert_eq!(s.state, CommitState::RolledBack);
    assert_eq!(s.failed, Some(0));
    assert!(matches!(s.next_action(), CommitAction::Done));
    match s.outcome(Vec::new()) {
        TransactionOutcome::RolledBack { failed_plan, conflicts } => {
            assert_eq!(failed_plan, Some(0));
            assert!(conflicts.is_empty());
        },
        _ => panic!("a rolled-back session reports the failure"),
    }
}

#[test]
fn query_session_pages_and_finishes() {
    let cols = vec!["a".to_string(), "b".to_string()];
    let mut s = QuerySession::new(cols, 2);
    assert!(matches!(s.next_action(), QueryAction::FetchBatch));
    s.push_batch(vec![
        vec![NativeValue::Integer(1), NativeValue::Text("x".to_string())],
        vec![NativeValue::Integer(2), NativeValue::Null],
    ])
    .unwrap();
    assert!(matches!(s.next_action(), QueryAction::FetchBatch));
    // A short batch ends the result set.
    s.push_batch(vec![vec![NativeValue::Integer(3), NativeValue::Null]]).unwrap();
    assert!(s.exhausted);
    assert!(matches!(s.next_action(), QueryAction::Release));
    assert_eq!(s.rows.len(), 3);
}

#[test]
fn query_session_rejects_malformed_rows() {
    let mut s = QuerySession::new(vec!["a".to_string()], 4);
    assert!(s.push_batch(vec![vec![NativeValue::Integer(1), NativeValue::Integer(2)]]).is_err());
    assert_eq!(s.rows.len(), 0);
    assert!(matches!(s.next_action(), QueryAction::FetchBatch));
}

#[test]
fn cancel_keeps_partial_rows_and_frees_connection() {
    let mut guard = ConnectionGuard::new();
    guard.begin_query().unwrap();
    assert_eq!(guard.begin_query().unwrap_err(), AccessError::ConnectionBusy);

    let mut s = QuerySession::new(vec!["a".to_string()], 2);
    s.push_batch(vec![
        vec![NativeValue::Integer(1)],
        vec![NativeValue::Integer(2)],
    ])
    .unwrap();
    s.request_cancel();
    assert!(matches!(s.next_action(), QueryAction::Release));
    s.release(&mut guard);
    assert!(matches!(s.next_action(), QueryAction::Done));

    // The partial result is intact and well-formed.
    assert_eq!(s.rows.len(), 2);
    assert!(value_eq(&s.rows[1][0], &Value::Integer(2)));

    // The connection is usable for the next query.
    assert_eq!(guard.state, ConnState::Idle);
    guard.begin_query().unwrap();
    guard.end_query();
}

#[test]
fn transactions_are_exclusive_and_close_rolls_back() {
    let mut guard = ConnectionGuard::new();
    guard.begin_transaction().unwrap();
    assert_eq!(guard.begin_transaction().unwrap_err(), AccessError::ConnectionBusy);
    assert_eq!(guard.begin_query().unwrap_err(), AccessError::ConnectionBusy);
    // Closing with a transaction open owes a rollback first.
    assert!(guard.close());
    assert_eq!(guard.begin_query().unwrap_err(), AccessError::ConnectionClosed);
    let mut fresh = ConnectionGuard::new();
    assert!(!fresh.close());
}
