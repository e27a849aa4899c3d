use hiss_native::{
    execute_batch_text, execute_message, execute_outcome, extract_rowcount, needs_rowcount,
    rowcount_batch, substitute_params, ColumnInfo, CompactValue, HostParam, MultiSetWriter,
    ROWCOUNT_ALIAS,
};

fn echo_sets(n: i64) -> Vec<(Vec<ColumnInfo>, hiss_native::PyRowWriter)> {
    let mut m = MultiSetWriter::new();
    m.on_metadata(vec![ColumnInfo { name: ROWCOUNT_ALIAS.to_string() }]);
    m.write_i64(0, n);
    m.on_row_done();
    m.finalize()
}

#[test]
fn update_with_parameter_is_rewritten_and_echoed() {
    let sql = substitute_params("UPDATE t SET x=1 WHERE id=@p1", &vec![HostParam::Int(7)]);
    assert_eq!(sql, "UPDATE t SET x=1 WHERE id=7");
    let (dml, batch) = execute_batch_text(&sql);
    assert!(dml);
    assert_eq!(batch, "UPDATE t SET x=1 WHERE id=7\nSELECT @@ROWCOUNT AS __rc__");
    assert_eq!(execute_outcome(dml, &echo_sets(3)), "3 row(s) affected");
}

#[test]
fn non_dml_is_not_echoed() {
    let (dml, batch) = execute_batch_text("SELECT 1");
    assert!(!dml);
    assert_eq!(batch, "SELECT 1");
    assert_eq!(execute_outcome(dml, &echo_sets(3)), "OK");
}

#[test]
fn dml_detection() {
    assert!(needs_rowcount("  insert into t values (1)"));
    assert!(needs_rowcount("delete FROM t"));
    assert!(needs_rowcount("\nMerge INTO t USING s ON 1=1"));
    assert!(!needs_rowcount("INSERTX"));
    assert!(!needs_rowcount("UPDATED_AT = 1"));
    assert!(needs_rowcount("UPDATE"));
    assert!(needs_rowcount("UPDATE\nt SET x = 1"));
    assert!(needs_rowcount("update\tt set x = 1"));
    assert!(needs_rowcount("  update t set x = 1"));
    assert!(needs_rowcount("MERGE"));
    assert!(!needs_rowcount("SELECT * FROM t"));
    assert!(!needs_rowcount(""));
}

#[test]
fn rowcount_echo_text() {
    assert_eq!(rowcount_batch("DELETE t"), "DELETE t\nSELECT @@ROWCOUNT AS __rc__");
}

#[test]
fn rowcount_extraction() {
    assert_eq!(extract_rowcount(&Vec::new()), 0);
    assert_eq!(extract_rowcount(&echo_sets(-1)), -1);
    let mut m = MultiSetWriter::new();
    m.on_metadata(vec![ColumnInfo { name: "other".to_string() }]);
    m.write_i64(0, 9);
    m.on_row_done();
    assert_eq!(extract_rowcount(&m.finalize()), 0);
    let mut m = MultiSetWriter::new();
    m.on_metadata(vec![ColumnInfo { name: ROWCOUNT_ALIAS.to_string() }]);
    m.write_str(0, "9");
    m.on_row_done();
    assert_eq!(extract_rowcount(&m.finalize()), 0);
}

#[test]
fn messages() {
    assert_eq!(execute_message(true, 0), "0 row(s) affected");
    assert_eq!(execute_message(true, 12), "12 row(s) affected");
    assert_eq!(execute_message(false, 12), "OK");
}

#[test]
fn placeholders_substituted_highest_first() {
    let params: Vec<HostParam> = (1..=10).map(HostParam::Int).collect();
    let sql = substitute_params("SELECT @p1, @p10, @p2", &params);
    assert_eq!(sql, "SELECT 1, 10, 2");
}

#[test]
fn text_parameters_are_escaped() {
    let sql = substitute_params(
        "SELECT * FROM p WHERE name=@p1 AND note=@p2",
        &vec![HostParam::Text("O'Brien".to_string()), HostParam::Null],
    );
    assert_eq!(sql, "SELECT * FROM p WHERE name=N'O''Brien' AND note=NULL");
}

#[test]
fn no_parameters_keeps_text() {
    assert_eq!(substitute_params("SELECT '@p1'", &Vec::new()), "SELECT '@p1'");
}

#[test]
fn each_parameter_set_is_substituted_on_its_own() {
    let sets = vec![
        vec![HostParam::Int(1), HostParam::Text("a".to_string())],
        vec![],
        vec![HostParam::Bool(true), HostParam::Null],
    ];
    let sqls = hiss_native::substitute_many("INSERT INTO t VALUES (@p1, @p2)", &sets);
    assert_eq!(
        sqls,
        vec![
            "INSERT INTO t VALUES (1, N'a')".to_string(),
            "INSERT INTO t VALUES (@p1, @p2)".to_string(),
            "INSERT INTO t VALUES (1, NULL)".to_string(),
        ]
    );
}

#[test]
fn multi_line_update_is_echoed() {
    let (dml, batch) = execute_batch_text("UPDATE\nt SET x = 1");
    assert!(dml);
    assert_eq!(batch, "UPDATE\nt SET x = 1\nSELECT @@ROWCOUNT AS __rc__");
    assert_eq!(execute_outcome(dml, &echo_sets(4)), "4 row(s) affected");
    assert_eq!(execute_outcome(dml, &Vec::new()), "0 row(s) affected");
}
