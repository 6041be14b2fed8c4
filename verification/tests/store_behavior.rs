//! Behavioural tests for the store: creation and lookup, partial
//! updates, task positioning and ordering, cascade deletes, tag
//! associations and session statistics.

use deskstore::models::StoreError;
use deskstore::store::Store;

fn s(x: &str) -> String {
    x.to_string()
}

#[test]
fn create_then_get_note_returns_created_value() {
    let mut st = Store::new();
    let n = st
        .create_note_at(s("n1"), 100, s("Title"), s("Body"), Some(s("p1")))
        .unwrap();
    assert_eq!(n.created_at, n.updated_at);
    let got = st.get_note_by_id(s("n1")).unwrap();
    assert_eq!(got.id, n.id);
    assert_eq!(got.title, n.title);
    assert_eq!(got.content, n.content);
    assert_eq!(got.project_id, n.project_id);
    assert_eq!(got.created_at, n.created_at);
    assert_eq!(got.updated_at, n.updated_at);
}

#[test]
fn create_then_get_project_returns_created_value() {
    let mut st = Store::new();
    let p = st
        .create_project_at(s("p1"), 50, s("Launch"), None, s("#112233"))
        .unwrap();
    assert_eq!(p.created_at, p.updated_at);
    let got = st.get_project_by_id(s("p1")).unwrap();
    assert_eq!(got.name, "Launch");
    assert_eq!(got.color, "#112233");
    assert!(!got.is_archived);
    assert_eq!(got.created_at, 50);
}

#[test]
fn get_by_id_absent_is_none_not_error() {
    let st = Store::new();
    assert!(st.get_note_by_id(s("missing")).is_none());
    assert!(st.get_project_by_id(s("missing")).is_none());
}

#[test]
fn update_with_no_fields_changes_only_timestamp() {
    let mut st = Store::new();
    st.create_note_at(s("n1"), 100, s("Title"), s("Body"), None)
        .unwrap();
    st.update_note_at(
        s("n1"),
        deskstore::patch::NotePatch { title: None, content: None, project_id: None },
        200,
    )
    .unwrap();
    let got = st.get_note_by_id(s("n1")).unwrap();
    assert_eq!(got.title, "Title");
    assert_eq!(got.content, "Body");
    assert_eq!(got.project_id, None);
    assert_eq!(got.created_at, 100);
    assert_eq!(got.updated_at, 200);
}

#[test]
fn update_single_field_changes_only_it_and_timestamp() {
    let mut st = Store::new();
    st.create_note_at(s("n1"), 100, s("Title"), s("Body"), Some(s("p1")))
        .unwrap();
    st.update_note_at(
        s("n1"),
        deskstore::patch::NotePatch { title: Some(s("New")), content: None, project_id: None },
        300,
    )
    .unwrap();
    let got = st.get_note_by_id(s("n1")).unwrap();
    assert_eq!(got.title, "New");
    assert_eq!(got.content, "Body");
    assert_eq!(got.project_id, Some(s("p1")));
    assert_eq!(got.created_at, 100);
    assert_eq!(got.updated_at, 300);
}

#[test]
fn task_positions_count_up_from_one_in_creation_order() {
    let mut st = Store::new();
    let t1 = st
        .create_task_at(s("t1"), 10, s("a"), None, 3, None, None, None)
        .unwrap();
    let t2 = st
        .create_task_at(s("t2"), 11, s("b"), None, 3, None, None, None)
        .unwrap();
    let t3 = st
        .create_task_at(s("t3"), 12, s("c"), None, 3, None, None, None)
        .unwrap();
    assert_eq!(t1.position, 1);
    assert_eq!(t2.position, 2);
    assert_eq!(t3.position, 3);
}

#[test]
fn task_position_in_populated_scope_is_max_plus_one() {
    let mut st = Store::new();
    st.create_task_at(s("t1"), 10, s("a"), None, 3, None, None, None)
        .unwrap();
    st.update_task_position_at(s("t1"), 10, 20).unwrap();
    let t2 = st
        .create_task_at(s("t2"), 30, s("b"), None, 3, None, None, None)
        .unwrap();
    assert_eq!(t2.position, 11);
}

#[test]
fn child_scope_positions_are_independent() {
    let mut st = Store::new();
    let p = st
        .create_task_at(s("root"), 10, s("parent"), None, 3, None, None, None)
        .unwrap();
    assert_eq!(p.position, 1);
    let c1 = st
        .create_task_at(s("c1"), 11, s("child"), None, 3, None, None, Some(s("root")))
        .unwrap();
    let c2 = st
        .create_task_at(s("c2"), 12, s("child"), None, 3, None, None, Some(s("root")))
        .unwrap();
    assert_eq!(c1.position, 1);
    assert_eq!(c2.position, 2);
}

#[test]
fn listing_sorts_by_position_then_created_at_descending() {
    let mut st = Store::new();
    st.create_project_at(s("p"), 1, s("P"), None, s("#000000"))
        .unwrap();
    st.create_task_at(s("a"), 10, s("a"), None, 3, None, Some(s("p")), None)
        .unwrap();
    st.create_task_at(s("b"), 20, s("b"), None, 3, None, Some(s("p")), None)
        .unwrap();
    st.create_task_at(s("c"), 30, s("c"), None, 3, None, Some(s("p")), None)
        .unwrap();
    // Give a and b the same position; the newer creation comes first.
    st.update_task_position_at(s("a"), 7, 40).unwrap();
    st.update_task_position_at(s("b"), 7, 41).unwrap();
    st.update_task_position_at(s("c"), 1, 42).unwrap();
    let listed = st.get_tasks_by_project(s("p"));
    let ids: Vec<&str> = listed.iter().map(|t| t.id.as_str()).collect();
    assert_eq!(ids, vec!["c", "b", "a"]);
}

#[test]
fn pomodoro_stats_over_zero_completed_has_absent_average() {
    let mut st = Store::new();
    st.start_pomodoro_session_at(s("s1"), 100, None, 25).unwrap();
    let stats = st.get_pomodoro_stats(None, None).unwrap();
    assert_eq!(stats.total_sessions, 1);
    assert_eq!(stats.completed_sessions, 0);
    assert_eq!(stats.total_minutes, 0);
    assert_eq!(stats.average_minutes, None);
}

#[test]
fn pomodoro_stats_average_is_truncated_mean_of_completed() {
    let mut st = Store::new();
    st.start_pomodoro_session_at(s("s1"), 100, None, 25).unwrap();
    st.start_pomodoro_session_at(s("s2"), 110, None, 10).unwrap();
    st.start_pomodoro_session_at(s("s3"), 120, None, 99).unwrap();
    st.complete_pomodoro_session_at(s("s1"), 130).unwrap();
    st.complete_pomodoro_session_at(s("s2"), 140).unwrap();
    let stats = st.get_pomodoro_stats(None, None).unwrap();
    assert_eq!(stats.total_sessions, 3);
    assert_eq!(stats.completed_sessions, 2);
    assert_eq!(stats.total_minutes, 35);
    assert_eq!(stats.average_minutes, Some(17));
}

#[test]
fn pomodoro_stats_respect_date_range() {
    let mut st = Store::new();
    st.start_pomodoro_session_at(s("s1"), 100, None, 25).unwrap();
    st.start_pomodoro_session_at(s("s2"), 200, None, 30).unwrap();
    st.complete_pomodoro_session_at(s("s1"), 150).unwrap();
    st.complete_pomodoro_session_at(s("s2"), 250).unwrap();
    let stats = st.get_pomodoro_stats(Some(150), None).unwrap();
    assert_eq!(stats.total_sessions, 1);
    assert_eq!(stats.completed_sessions, 1);
    assert_eq!(stats.total_minutes, 30);
    let stats = st.get_pomodoro_stats(Some(50), Some(150)).unwrap();
    assert_eq!(stats.total_sessions, 1);
    assert_eq!(stats.total_minutes, 25);
}

#[test]
fn deleting_project_removes_its_tasks() {
    let mut st = Store::new();
    st.create_project_at(s("p1"), 1, s("P1"), None, s("#000000"))
        .unwrap();
    st.create_project_at(s("p2"), 2, s("P2"), None, s("#000000"))
        .unwrap();
    st.create_task_at(s("t1"), 10, s("a"), None, 3, None, Some(s("p1")), None)
        .unwrap();
    st.create_task_at(s("t2"), 11, s("b"), None, 3, None, Some(s("p1")), None)
        .unwrap();
    st.create_task_at(s("t3"), 12, s("c"), None, 3, None, Some(s("p2")), None)
        .unwrap();
    st.delete_project(s("p1"));
    assert!(st.get_project_by_id(s("p1")).is_none());
    assert!(st.get_tasks_by_project(s("p1")).is_empty());
    let rest = st.get_tasks_by_project(s("p2"));
    assert_eq!(rest.len(), 1);
    assert_eq!(rest[0].id, "t3");
}

#[test]
fn deleting_task_cascades_to_descendants() {
    let mut st = Store::new();
    st.create_task_at(s("t1"), 10, s("a"), None, 3, None, None, None)
        .unwrap();
    st.create_task_at(s("t2"), 11, s("b"), None, 3, None, None, Some(s("t1")))
        .unwrap();
    st.create_task_at(s("t3"), 12, s("c"), None, 3, None, None, Some(s("t2")))
        .unwrap();
    st.create_task_at(s("t4"), 13, s("d"), None, 3, None, None, None)
        .unwrap();
    st.delete_task(s("t1"));
    let remaining = st.get_all_tasks();
    assert_eq!(remaining.len(), 1);
    assert_eq!(remaining[0].id, "t4");
}

#[test]
fn deleting_tag_removes_its_associations() {
    let mut st = Store::new();
    st.create_note_at(s("n1"), 1, s("Note"), s(""), None).unwrap();
    st.create_tag_at(s("g1"), 2, s("urgent"), s("#ff0000")).unwrap();
    st.create_tag_at(s("g2"), 3, s("later"), s("#00ff00")).unwrap();
    st.add_tag_to_note(s("n1"), s("g1"));
    st.add_tag_to_note(s("n1"), s("g2"));
    st.delete_tag(s("g1"));
    let tags = st.get_tags_for_note(s("n1"));
    assert_eq!(tags.len(), 1);
    assert_eq!(tags[0].id, "g2");
    assert!(st.get_notes_by_tag(s("g1")).is_empty());
}

#[test]
fn deleting_note_removes_its_associations() {
    let mut st = Store::new();
    st.create_note_at(s("n1"), 1, s("Note"), s(""), None).unwrap();
    st.create_tag_at(s("g1"), 2, s("urgent"), s("#ff0000")).unwrap();
    st.add_tag_to_note(s("n1"), s("g1"));
    st.delete_note(s("n1"));
    assert!(st.get_note_by_id(s("n1")).is_none());
    assert!(st.get_notes_by_tag(s("g1")).is_empty());
}

#[test]
fn position_reassignment_scenario() {
    let mut st = Store::new();
    st.create_project_at(s("p"), 1, s("Launch"), None, s("#000000"))
        .unwrap();
    let t1 = st
        .create_task_at(s("t1"), 10, s("first"), None, 3, None, Some(s("p")), None)
        .unwrap();
    assert_eq!(t1.position, 1);
    let t2 = st
        .create_task_at(s("t2"), 11, s("second"), None, 3, None, Some(s("p")), None)
        .unwrap();
    assert_eq!(t2.position, 2);
    st.update_task_position_at(s("t1"), 5, 20).unwrap();
    let listed = st.get_tasks_by_project(s("p"));
    assert_eq!(listed.len(), 2);
    assert_eq!(listed[0].id, "t2");
    assert_eq!(listed[0].position, 2);
    assert_eq!(listed[1].id, "t1");
    assert_eq!(listed[1].position, 5);
}

#[test]
fn notes_list_most_recently_updated_first() {
    let mut st = Store::new();
    st.create_note_at(s("n1"), 100, s("a"), s(""), None).unwrap();
    st.create_note_at(s("n2"), 200, s("b"), s(""), None).unwrap();
    st.create_note_at(s("n3"), 300, s("c"), s(""), None).unwrap();
    st.update_note_at(
        s("n1"),
        deskstore::patch::NotePatch { title: None, content: None, project_id: None },
        400,
    )
    .unwrap();
    let listed = st.get_all_notes();
    let ids: Vec<&str> = listed.iter().map(|n| n.id.as_str()).collect();
    assert_eq!(ids, vec!["n1", "n3", "n2"]);
}

#[test]
fn tags_list_by_name_ascending() {
    let mut st = Store::new();
    st.create_tag_at(s("g1"), 1, s("zebra"), s("#000000")).unwrap();
    st.create_tag_at(s("g2"), 2, s("alpha"), s("#000000")).unwrap();
    st.create_tag_at(s("g3"), 3, s("middle"), s("#000000")).unwrap();
    let listed = st.get_all_tags();
    let names: Vec<&str> = listed.iter().map(|t| t.name.as_str()).collect();
    assert_eq!(names, vec!["alpha", "middle", "zebra"]);
}

#[test]
fn search_matches_title_or_content() {
    let mut st = Store::new();
    st.create_note_at(s("n1"), 100, s("groceries"), s("milk and eggs"), None)
        .unwrap();
    st.create_note_at(s("n2"), 200, s("work"), s("quarterly report"), None)
        .unwrap();
    let by_title = st.search_notes(s("grocer"));
    assert_eq!(by_title.len(), 1);
    assert_eq!(by_title[0].id, "n1");
    let by_content = st.search_notes(s("report"));
    assert_eq!(by_content.len(), 1);
    assert_eq!(by_content[0].id, "n2");
    assert!(st.search_notes(s("absent")).is_empty());
    assert_eq!(st.search_notes(s("")).len(), 2);
}

#[test]
fn search_folds_ascii_case_both_ways() {
    let mut st = Store::new();
    st.create_note_at(s("n1"), 100, s("Groceries"), s("MILK and eggs"), None)
        .unwrap();
    let upper_query = st.search_notes(s("GROCER"));
    assert_eq!(upper_query.len(), 1);
    let lower_query = st.search_notes(s("milk"));
    assert_eq!(lower_query.len(), 1);
    assert!(st.search_notes(s("bread")).is_empty());
}

#[test]
fn attaching_twice_is_idempotent() {
    let mut st = Store::new();
    st.create_note_at(s("n1"), 1, s("Note"), s(""), None).unwrap();
    st.create_tag_at(s("g1"), 2, s("urgent"), s("#ff0000")).unwrap();
    st.add_tag_to_note(s("n1"), s("g1"));
    st.add_tag_to_note(s("n1"), s("g1"));
    assert_eq!(st.get_tags_for_note(s("n1")).len(), 1);
    assert_eq!(st.get_notes_by_tag(s("g1")).len(), 1);
    st.remove_tag_from_note(s("n1"), s("g1"));
    assert!(st.get_tags_for_note(s("n1")).is_empty());
}

#[test]
fn completing_a_session_stamps_and_restamps() {
    let mut st = Store::new();
    st.start_pomodoro_session_at(s("s1"), 100, Some(s("t1")), 25)
        .unwrap();
    st.complete_pomodoro_session_at(s("s1"), 150).unwrap();
    let all = st.get_all_pomodoro_sessions();
    assert!(all[0].is_completed);
    assert_eq!(all[0].completed_at, Some(150));
    // Completing again re-stamps: last write wins.
    st.complete_pomodoro_session_at(s("s1"), 175).unwrap();
    let all = st.get_all_pomodoro_sessions();
    assert_eq!(all[0].completed_at, Some(175));
}

#[test]
fn cancelling_a_session_removes_it() {
    let mut st = Store::new();
    st.start_pomodoro_session_at(s("s1"), 100, None, 25).unwrap();
    st.cancel_pomodoro_session(s("s1"));
    assert!(st.get_all_pomodoro_sessions().is_empty());
}

#[test]
fn sessions_by_task_lists_newest_first() {
    let mut st = Store::new();
    st.start_pomodoro_session_at(s("s1"), 100, Some(s("t1")), 25)
        .unwrap();
    st.start_pomodoro_session_at(s("s2"), 200, Some(s("t1")), 25)
        .unwrap();
    st.start_pomodoro_session_at(s("s3"), 300, Some(s("t2")), 25)
        .unwrap();
    let listed = st.get_sessions_by_task(s("t1"));
    let ids: Vec<&str> = listed.iter().map(|x| x.id.as_str()).collect();
    assert_eq!(ids, vec!["s2", "s1"]);
}

#[test]
fn archive_and_unarchive_flip_the_flag_only() {
    let mut st = Store::new();
    st.create_project_at(s("p1"), 1, s("P"), Some(s("desc")), s("#123456"))
        .unwrap();
    st.archive_project(s("p1")).unwrap();
    let got = st.get_project_by_id(s("p1")).unwrap();
    assert!(got.is_archived);
    assert_eq!(got.name, "P");
    assert_eq!(got.description, Some(s("desc")));
    st.unarchive_project(s("p1")).unwrap();
    assert!(!st.get_project_by_id(s("p1")).unwrap().is_archived);
}

#[test]
fn project_stats_count_completed_and_pending() {
    let mut st = Store::new();
    st.create_project_at(s("p"), 1, s("P"), None, s("#000000"))
        .unwrap();
    st.create_task_at(s("t1"), 10, s("a"), None, 3, None, Some(s("p")), None)
        .unwrap();
    st.create_task_at(s("t2"), 11, s("b"), None, 3, None, Some(s("p")), None)
        .unwrap();
    st.create_task_at(s("t3"), 12, s("c"), None, 3, None, None, None)
        .unwrap();
    st.update_task(s("t1"), None, None, Some(true), None, None, None)
        .unwrap();
    let stats = st.get_project_stats(s("p"));
    assert_eq!(stats.total_tasks, 2);
    assert_eq!(stats.completed_tasks, 1);
    assert_eq!(stats.pending_tasks, 1);
}

#[test]
fn duplicate_id_is_rejected() {
    let mut st = Store::new();
    st.create_note_at(s("n1"), 1, s("a"), s(""), None).unwrap();
    let e = st.create_note_at(s("n1"), 2, s("b"), s(""), None).unwrap_err();
    assert!(matches!(e, StoreError::IdTaken));
}

#[test]
fn update_of_missing_row_is_not_found() {
    let mut st = Store::new();
    let e = st
        .update_note_at(
            s("missing"),
            deskstore::patch::NotePatch { title: None, content: None, project_id: None },
            10,
        )
        .unwrap_err();
    assert!(matches!(e, StoreError::NotFound));
    let e = st.complete_pomodoro_session_at(s("missing"), 10).unwrap_err();
    assert!(matches!(e, StoreError::NotFound));
}

#[test]
fn duplicate_tag_name_is_rejected() {
    let mut st = Store::new();
    st.create_tag_at(s("g1"), 1, s("urgent"), s("#ff0000")).unwrap();
    let e = st.create_tag_at(s("g2"), 2, s("urgent"), s("#00ff00")).unwrap_err();
    assert!(matches!(e, StoreError::NameTaken));
    st.create_tag_at(s("g3"), 3, s("later"), s("#0000ff")).unwrap();
    let e = st.update_tag(s("g3"), Some(s("urgent")), None).unwrap_err();
    assert!(matches!(e, StoreError::NameTaken));
    // Renaming a tag onto its own name stands.
    st.update_tag(s("g3"), Some(s("later")), None).unwrap();
}

#[test]
fn empty_tag_update_is_a_no_op_that_succeeds() {
    let mut st = Store::new();
    st.update_tag(s("missing"), None, None).unwrap();
}

#[test]
fn self_parent_is_rejected() {
    let mut st = Store::new();
    let e = st
        .create_task_at(s("t1"), 10, s("a"), None, 3, None, None, Some(s("t1")))
        .unwrap_err();
    assert!(matches!(e, StoreError::SelfParent));
}

#[test]
fn reusing_a_referenced_parent_id_is_rejected() {
    let mut st = Store::new();
    st.create_task_at(s("t1"), 10, s("a"), None, 3, None, None, Some(s("ghost")))
        .unwrap();
    let e = st
        .create_task_at(s("ghost"), 11, s("b"), None, 3, None, None, None)
        .unwrap_err();
    assert!(matches!(e, StoreError::IdReferenced));
}

#[test]
fn negative_duration_is_stored_as_supplied() {
    let mut st = Store::new();
    let session = st.start_pomodoro_session_at(s("s1"), 10, None, -5).unwrap();
    assert_eq!(session.duration_minutes, -5);
    st.start_pomodoro_session_at(s("s2"), 20, None, 25).unwrap();
    st.complete_pomodoro_session_at(s("s1"), 30).unwrap();
    st.complete_pomodoro_session_at(s("s2"), 40).unwrap();
    let stats = st.get_pomodoro_stats(None, None).unwrap();
    assert_eq!(stats.total_minutes, 20);
    assert_eq!(stats.completed_sessions, 2);
    assert_eq!(stats.average_minutes, Some(10));
}

#[test]
fn negative_average_rounds_toward_zero() {
    let mut st = Store::new();
    st.start_pomodoro_session_at(s("s1"), 10, None, -25).unwrap();
    st.start_pomodoro_session_at(s("s2"), 20, None, -10).unwrap();
    st.complete_pomodoro_session_at(s("s1"), 30).unwrap();
    st.complete_pomodoro_session_at(s("s2"), 40).unwrap();
    let stats = st.get_pomodoro_stats(None, None).unwrap();
    assert_eq!(stats.total_minutes, -35);
    assert_eq!(stats.average_minutes, Some(-17));
}

#[test]
fn position_at_integer_ceiling_overflows() {
    let mut st = Store::new();
    st.create_task_at(s("t1"), 10, s("a"), None, 3, None, None, None)
        .unwrap();
    st.update_task_position_at(s("t1"), i64::MAX, 20).unwrap();
    let e = st
        .create_task_at(s("t2"), 30, s("b"), None, 3, None, None, None)
        .unwrap_err();
    assert!(matches!(e, StoreError::Overflow));
}

#[test]
fn fresh_identifiers_have_the_rendered_uuid_shape() {
    let mut st = Store::new();
    let n = st.create_note_at(s("fixed"), 1, s("a"), s(""), None).unwrap();
    assert_eq!(n.id.len(), 5);
    let created = st.create_note(s("b"), s(""), None).unwrap();
    assert_eq!(created.id.len(), 36);
    let task = st.create_task(s("c"), None, None, None, None, None).unwrap();
    assert_eq!(task.id.len(), 36);
    assert_eq!(task.priority, 3);
}

#[test]
fn error_messages_are_flat_strings() {
    assert_eq!(StoreError::NotFound.message(), "no row matches the given id");
    assert!(!StoreError::Overflow.message().is_empty());
}
