//! Tests for the partial-update builder: which assignments a patch
//! binds, in which order, and how values are coerced for binding.

use deskstore::patch::{
    build_note_set_clause, build_task_set_clause, build_project_set_clause, build_tag_set_clause,
    build_position_set_clause, build_completion_set_clause, clause_params, note_insert_params,
    column_sql, table_sql, Column, SqlValue, Table, NotePatch, TaskPatch, ProjectPatch, TagPatch,
};
use deskstore::models::Note;

fn s(x: &str) -> String {
    x.to_string()
}

fn cols(clause: &[deskstore::patch::Assignment]) -> Vec<Column> {
    clause.iter().map(|a| a.column).collect()
}

#[test]
fn note_clause_binds_present_fields_in_order_then_timestamp() {
    let clause = build_note_set_clause(
        NotePatch { title: Some(s("T")), content: None, project_id: Some(s("p")) },
        777,
    );
    assert_eq!(cols(&clause), vec![Column::Title, Column::ProjectId, Column::UpdatedAt]);
    assert!(matches!(&clause[0].value, SqlValue::Text(t) if t == "T"));
    assert!(matches!(&clause[1].value, SqlValue::Text(p) if p == "p"));
    assert!(matches!(clause[2].value, SqlValue::Int(777)));
}

#[test]
fn empty_note_clause_still_refreshes_timestamp() {
    let clause = build_note_set_clause(
        NotePatch { title: None, content: None, project_id: None },
        5,
    );
    assert_eq!(cols(&clause), vec![Column::UpdatedAt]);
}

#[test]
fn task_clause_coerces_booleans_to_zero_one() {
    let clause = build_task_set_clause(
        TaskPatch {
            title: None,
            description: None,
            is_completed: Some(true),
            priority: Some(2),
            due_date: Some(None),
            project_id: None,
        },
        9,
    );
    assert_eq!(
        cols(&clause),
        vec![Column::IsCompleted, Column::Priority, Column::DueDate, Column::UpdatedAt]
    );
    assert!(matches!(clause[0].value, SqlValue::Int(1)));
    assert!(matches!(clause[1].value, SqlValue::Int(2)));
    assert!(matches!(clause[2].value, SqlValue::Null));
}

#[test]
fn project_clause_binds_archive_flag_as_integer() {
    let clause = build_project_set_clause(
        ProjectPatch { name: None, description: None, color: None, is_archived: Some(false) },
        3,
    );
    assert_eq!(cols(&clause), vec![Column::IsArchived, Column::UpdatedAt]);
    assert!(matches!(clause[0].value, SqlValue::Int(0)));
}

#[test]
fn empty_tag_clause_is_empty_no_timestamp_column() {
    assert!(build_tag_set_clause(TagPatch { name: None, color: None }).is_empty());
    let clause = build_tag_set_clause(TagPatch { name: Some(s("n")), color: None });
    assert_eq!(cols(&clause), vec![Column::Name]);
}

#[test]
fn params_follow_clause_order_with_key_last() {
    let clause = build_position_set_clause(5, 60);
    let params = clause_params(&clause, &s("t1"));
    assert_eq!(params.len(), 3);
    assert!(matches!(params[0], SqlValue::Int(5)));
    assert!(matches!(params[1], SqlValue::Int(60)));
    assert!(matches!(&params[2], SqlValue::Text(k) if k == "t1"));
}

#[test]
fn completion_clause_sets_flag_and_stamp() {
    let clause = build_completion_set_clause(88);
    assert_eq!(cols(&clause), vec![Column::IsCompleted, Column::CompletedAt]);
    assert!(matches!(clause[0].value, SqlValue::Int(1)));
    assert!(matches!(clause[1].value, SqlValue::Int(88)));
}

#[test]
fn insert_params_follow_the_fixed_column_order() {
    let n = Note {
        id: s("n1"),
        title: s("T"),
        content: s("C"),
        created_at: 1,
        updated_at: 2,
        project_id: None,
    };
    let params = note_insert_params(&n);
    assert_eq!(params.len(), 6);
    assert!(matches!(&params[0], SqlValue::Text(v) if v == "n1"));
    assert!(matches!(&params[1], SqlValue::Text(v) if v == "T"));
    assert!(matches!(&params[2], SqlValue::Text(v) if v == "C"));
    assert!(matches!(params[3], SqlValue::Int(1)));
    assert!(matches!(params[4], SqlValue::Int(2)));
    assert!(matches!(params[5], SqlValue::Null));
}

#[test]
fn column_and_table_names_come_from_the_fixed_set() {
    assert_eq!(column_sql(Column::UpdatedAt), "updated_at");
    assert_eq!(column_sql(Column::ProjectId), "project_id");
    assert_eq!(column_sql(Column::DueDate), "due_date");
    assert_eq!(table_sql(Table::PomodoroSessions), "pomodoro_sessions");
    assert_eq!(table_sql(Table::Notes), "notes");
}
