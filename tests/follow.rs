use editsync_core::follow::UpdateGeneration;
use editsync_core::follow::{
    anchors_to_wait_for, apply_excerpt_changes, build_multi_buffer, deserialize_excerpt_range,
    deserialize_text_anchor, deserialize_view_state, inserted_buffer_ids, referenced_buffer_ids,
    serialize_excerpt, AnchorWire, Editor, EditorEvent, ExcerptInsertion, ExcerptWire, FollowEvent,
    RemoteViewState, ScrollAnchor, Selection, SelectionWire, TextAnchorWire, ViewSnapshot, ViewUpdate,
    Dedup,
};
use editsync_core::multi_buffer::{
    Anchor, Bias, Buffer, BufferId, ExcerptId, ExcerptRange, MultiBuffer, TextAnchor, TextRange,
};

fn ta(offset: u64, bias: Bias) -> TextAnchor {
    TextAnchor { version: 3, offset, bias }
}

fn range(start: u64, end: u64) -> ExcerptRange {
    ExcerptRange {
        context: TextRange { start: ta(start, Bias::Left), end: ta(end, Bias::Right) },
        primary: Some(TextRange { start: ta(start, Bias::Left), end: ta(start, Bias::Right) }),
    }
}

fn buffer(id: u64) -> Buffer {
    Buffer { id: BufferId(id), len: 100, private: false }
}

fn leader() -> Editor {
    let mut mb = MultiBuffer::new().with_title("Diagnostics".to_string());
    mb.push_excerpts(buffer(1), &vec![range(0, 10), range(20, 30)]);
    mb.push_excerpts(buffer(2), &vec![range(5, 15)]);
    mb.push_excerpts(buffer(1), &vec![range(40, 50)]);
    Editor::for_multibuffer(mb, Some(17))
}

fn excerpt_wire(id: u64, buffer_id: u64, start: u64, end: u64) -> ExcerptWire {
    serialize_excerpt(BufferId(buffer_id), &ExcerptId(id), &range(start, end))
}

fn ids(mb: &MultiBuffer) -> Vec<u64> {
    mb.excerpts().iter().map(|e| e.id.0).collect()
}

fn empty_update() -> ViewUpdate {
    ViewUpdate {
        inserted_excerpts: vec![],
        deleted_excerpts: vec![],
        selections: vec![],
        pending_selection: None,
        scroll_top_anchor: None,
        scroll_x: 0,
        scroll_y: 0,
    }
}

#[test]
fn snapshot_round_trip_keeps_excerpts_in_order() {
    let leader = leader();
    let snapshot = leader.to_state_proto().unwrap();
    assert!(!snapshot.singleton);
    assert_eq!(snapshot.title, Some("Diagnostics".to_string()));
    assert_eq!(snapshot.scroll_top_anchor.unwrap().excerpt_id, 0);
    let wanted = referenced_buffer_ids(&snapshot);
    assert_eq!(wanted, vec![1, 2]);
    let follower = build_multi_buffer(&snapshot, &vec![buffer(1), buffer(2)]);
    assert_eq!(follower.excerpts(), leader.buffer.excerpts());
    assert_eq!(follower.title(), "Diagnostics");
}

#[test]
fn snapshot_of_singleton_builds_singleton() {
    let b = buffer(4);
    let leader = Editor::for_multibuffer(MultiBuffer::singleton(b), None);
    let snapshot = leader.to_state_proto().unwrap();
    assert!(snapshot.singleton);
    assert_eq!(snapshot.title, None);
    let follower = build_multi_buffer(&snapshot, &vec![b]);
    assert_eq!(follower.as_singleton(), Some(b));
    assert_eq!(follower.excerpts(), leader.buffer.excerpts());
}

#[test]
fn private_buffer_is_never_shared() {
    let b = Buffer { id: BufferId(4), len: 10, private: true };
    let mut editor = Editor::for_multibuffer(MultiBuffer::singleton(b), None);
    assert!(editor.to_state_proto().is_none());
    editor.pending_selection = Some(editor.selections[0]);
    assert!(editor.to_state_proto().is_none());
}

#[test]
fn missing_buffer_drops_its_excerpts() {
    let snapshot = leader().to_state_proto().unwrap();
    let follower = build_multi_buffer(&snapshot, &vec![buffer(2)]);
    assert_eq!(ids(&follower), vec![3]);
}

#[test]
fn local_edits_and_changes_unfollow() {
    assert_eq!(Editor::to_follow_event(&EditorEvent::Edited), Some(FollowEvent::Unfollow));
    assert_eq!(
        Editor::to_follow_event(&EditorEvent::SelectionsChanged { local: true }),
        Some(FollowEvent::Unfollow)
    );
    assert_eq!(
        Editor::to_follow_event(&EditorEvent::ScrollPositionChanged { local: true, autoscroll: false }),
        Some(FollowEvent::Unfollow)
    );
}

#[test]
fn remote_changes_do_not_unfollow() {
    assert_eq!(
        Editor::to_follow_event(&EditorEvent::ScrollPositionChanged { local: false, autoscroll: true }),
        None
    );
    assert_eq!(
        Editor::to_follow_event(&EditorEvent::ScrollPositionChanged { local: false, autoscroll: false }),
        None
    );
    assert_eq!(Editor::to_follow_event(&EditorEvent::SelectionsChanged { local: false }), None);
    assert_eq!(Editor::to_follow_event(&EditorEvent::Saved), None);
}

#[test]
fn events_coalesce_into_one_update() {
    let editor = leader();
    let mut update = None;
    let added = EditorEvent::ExcerptsAdded {
        buffer_id: BufferId(3),
        predecessor: ExcerptId(2),
        excerpts: vec![(ExcerptId(8), range(0, 1)), (ExcerptId(9), range(2, 3))],
    };
    assert!(editor.add_event_to_update_proto(&added, &mut update));
    assert!(editor.add_event_to_update_proto(&EditorEvent::ExcerptsRemoved { ids: vec![ExcerptId(4)] }, &mut update));
    assert!(editor.add_event_to_update_proto(&EditorEvent::SelectionsChanged { local: true }, &mut update));
    assert!(!editor.add_event_to_update_proto(
        &EditorEvent::ScrollPositionChanged { local: true, autoscroll: true },
        &mut update
    ));
    assert!(!editor.add_event_to_update_proto(&EditorEvent::Focused, &mut update));
    let u = update.unwrap();
    assert_eq!(u.inserted_excerpts.len(), 2);
    assert_eq!(u.inserted_excerpts[0].previous_excerpt_id, Some(2));
    assert_eq!(u.inserted_excerpts[1].previous_excerpt_id, None);
    assert_eq!(u.inserted_excerpts[1].excerpt.unwrap().id, 9);
    assert_eq!(u.deleted_excerpts, vec![4]);
    assert_eq!(u.selections.len(), 1);
    assert!(u.scroll_top_anchor.is_none());
}

#[test]
fn irrelevant_event_still_opens_an_empty_update() {
    let editor = leader();
    let mut update = None;
    assert!(!editor.add_event_to_update_proto(&EditorEvent::Blurred, &mut update));
    let u = update.unwrap();
    assert!(u.inserted_excerpts.is_empty() && u.deleted_excerpts.is_empty() && u.selections.is_empty());
}

#[test]
fn scroll_event_records_scroll_position() {
    let mut editor = leader();
    editor.scroll_anchor.offset_x = 1.5f32.to_bits();
    editor.scroll_anchor.offset_y = 2.25f32.to_bits();
    let mut update = None;
    assert!(editor.add_event_to_update_proto(
        &EditorEvent::ScrollPositionChanged { local: true, autoscroll: false },
        &mut update
    ));
    let u = update.unwrap();
    assert_eq!(f32::from_bits(u.scroll_x), 1.5);
    assert_eq!(f32::from_bits(u.scroll_y), 2.25);
    assert!(u.scroll_top_anchor.is_some());
}

#[test]
fn update_inserts_runs_and_removes_in_display_order() {
    let mut follower = build_multi_buffer(&leader().to_state_proto().unwrap(), &vec![buffer(1), buffer(2)]);
    let mut update = empty_update();
    update.inserted_excerpts = vec![
        ExcerptInsertion { previous_excerpt_id: Some(1), excerpt: Some(excerpt_wire(8, 2, 0, 1)) },
        ExcerptInsertion { previous_excerpt_id: None, excerpt: Some(excerpt_wire(9, 2, 2, 3)) },
        ExcerptInsertion { previous_excerpt_id: Some(77), excerpt: Some(excerpt_wire(10, 2, 2, 3)) },
        ExcerptInsertion { previous_excerpt_id: Some(4), excerpt: Some(excerpt_wire(11, 5, 2, 3)) },
        ExcerptInsertion { previous_excerpt_id: Some(4), excerpt: None },
    ];
    update.deleted_excerpts = vec![4, 2];
    assert_eq!(inserted_buffer_ids(&update), vec![2, 5]);
    apply_excerpt_changes(&mut follower, &update, &vec![buffer(1), buffer(2)]);
    assert_eq!(ids(&follower), vec![1, 8, 9, 3]);
}

#[test]
fn replaying_updates_keeps_leader_and_follower_in_step() {
    let mut leader_mb = leader().buffer;
    let mut follower = build_multi_buffer(&leader().to_state_proto().unwrap(), &vec![buffer(1), buffer(2)]);
    let mut update = empty_update();
    update.inserted_excerpts = vec![
        ExcerptInsertion { previous_excerpt_id: Some(0), excerpt: Some(excerpt_wire(8, 2, 0, 1)) },
    ];
    update.deleted_excerpts = vec![3];
    apply_excerpt_changes(&mut follower, &update, &vec![buffer(1), buffer(2)]);
    apply_excerpt_changes(&mut leader_mb, &update, &vec![buffer(1), buffer(2)]);
    assert_eq!(follower.excerpts(), leader_mb.excerpts());
    assert_eq!(follower.is_singleton(), leader_mb.is_singleton());
    assert_eq!(follower.title(), leader_mb.title());
}

#[test]
fn malformed_wire_values_are_dropped() {
    assert_eq!(deserialize_text_anchor(&TextAnchorWire { version: 1, offset: 2, bias: 7 }), None);
    let mut w = excerpt_wire(1, 1, 0, 4);
    w.primary_end = None;
    assert_eq!(deserialize_excerpt_range(&w).unwrap().primary, None);
    w.context_start = None;
    assert_eq!(deserialize_excerpt_range(&w), None);
}

#[test]
fn view_state_resolves_against_follower() {
    let mb = leader().buffer;
    let good = AnchorWire { excerpt_id: 3, anchor: Some(TextAnchorWire { version: 1, offset: 6, bias: 1 }) };
    let bad = AnchorWire { excerpt_id: 3, anchor: None };
    let selections = vec![
        SelectionWire { id: 1, start: Some(good), end: Some(good), reversed: false },
        SelectionWire { id: 2, start: Some(bad), end: Some(good), reversed: true },
    ];
    let state = deserialize_view_state(&mb, &selections, &None, &Some(good));
    assert_eq!(state.selections.len(), 1);
    assert_eq!(state.selections[0].start.buffer_id, Some(BufferId(2)));
    let wait = anchors_to_wait_for(&state);
    assert_eq!(wait.len(), 3);
    assert_eq!(wait[2], state.scroll_top_anchor.unwrap());
}

#[test]
fn selections_win_over_scroll_position() {
    let mut editor = leader();
    let a = Anchor {
        excerpt_id: ExcerptId(2),
        buffer_id: Some(BufferId(1)),
        text_anchor: ta(22, Bias::Left),
    };
    let old_scroll = editor.scroll_anchor;
    let state = RemoteViewState {
        selections: vec![Selection { id: 5, start: a, end: a, reversed: false }],
        pending_selection: None,
        scroll_top_anchor: Some(a),
    };
    editor.apply_remote_view_state(state, 3, 4);
    assert_eq!(editor.selections[0].id, 5);
    assert_eq!(editor.scroll_anchor, old_scroll);

    let state = RemoteViewState { selections: vec![], pending_selection: None, scroll_top_anchor: Some(a) };
    editor.apply_remote_view_state(state, 3, 4);
    assert_eq!(editor.selections[0].id, 5);
    assert_eq!(editor.scroll_anchor, ScrollAnchor { anchor: a, offset_x: 3, offset_y: 4 });
}

#[test]
fn dedup_keeps_existing_view_of_same_buffer() {
    let b = buffer(4);
    let x = Editor::for_multibuffer(MultiBuffer::singleton(b), None);
    let y = Editor::for_multibuffer(MultiBuffer::singleton(b), None);
    assert_eq!(x.dedup(&y), Some(Dedup::KeepExisting));
    assert_eq!(x.dedup(&leader()), None);
    assert_eq!(x.remote_id(), None);
    assert_eq!(leader().remote_id(), Some(17));
}

#[test]
fn snapshot_carries_selections() {
    let editor = leader();
    let snapshot: ViewSnapshot = editor.to_state_proto().unwrap();
    assert_eq!(snapshot.selections.len(), 1);
    assert_eq!(snapshot.pending_selection, None);
    assert_eq!(snapshot.excerpts.len(), 4);
    assert_eq!(snapshot.excerpts[2].buffer_id, 2);
}

#[test]
fn only_the_latest_update_is_current() {
    let mut generation = UpdateGeneration::new();
    let first = generation.begin();
    assert!(generation.is_current(first));
    let second = generation.begin();
    assert!(!generation.is_current(first));
    assert!(generation.is_current(second));
}

#[test]
fn view_with_a_private_excerpt_is_never_shared() {
    let mut mb = MultiBuffer::new();
    mb.push_excerpts(buffer(1), &vec![range(0, 10)]);
    mb.push_excerpts(Buffer { id: BufferId(9), len: 50, private: true }, &vec![range(5, 15)]);
    let editor = Editor::for_multibuffer(mb, None);
    assert!(editor.to_state_proto().is_none());
    let mut mb = editor.buffer;
    mb.remove_excerpts(&vec![ExcerptId(2)]);
    assert!(Editor::for_multibuffer(mb, None).to_state_proto().is_some());
}

#[test]
fn untitled_view_is_sent_with_a_title() {
    let mut mb = MultiBuffer::new();
    mb.push_excerpts(buffer(1), &vec![range(0, 10)]);
    let snapshot = Editor::for_multibuffer(mb, None).to_state_proto().unwrap();
    assert_eq!(snapshot.title, Some("untitled".to_string()));
}

#[test]
fn recording_one_kind_of_change_keeps_the_others() {
    let mut editor = leader();
    editor.scroll_anchor.offset_x = 7;
    let mut update = None;
    assert!(editor.add_event_to_update_proto(&EditorEvent::ExcerptsRemoved { ids: vec![ExcerptId(3)] }, &mut update));
    assert!(editor.add_event_to_update_proto(
        &EditorEvent::ScrollPositionChanged { local: true, autoscroll: false },
        &mut update
    ));
    assert!(editor.add_event_to_update_proto(&EditorEvent::SelectionsChanged { local: true }, &mut update));
    let added = EditorEvent::ExcerptsAdded {
        buffer_id: BufferId(2),
        predecessor: ExcerptId(1),
        excerpts: vec![(ExcerptId(8), range(0, 1))],
    };
    assert!(editor.add_event_to_update_proto(&added, &mut update));
    let u = update.unwrap();
    assert_eq!(u.deleted_excerpts, vec![3]);
    assert_eq!(u.scroll_x, 7);
    assert!(u.scroll_top_anchor.is_some());
    assert_eq!(u.selections.len(), 1);
    assert_eq!(u.inserted_excerpts.len(), 1);
}

#[test]
fn incremental_update_matches_a_fresh_snapshot() {
    let mut leader_editor = leader();
    let mut follower = build_multi_buffer(&leader_editor.to_state_proto().unwrap(), &vec![buffer(1), buffer(2)]);
    let run = vec![(ExcerptId(8), range(60, 70)), (ExcerptId(9), range(80, 90))];
    leader_editor.buffer.insert_excerpts_with_ids_after(ExcerptId(2), buffer(2), &run);
    leader_editor.buffer.remove_excerpts(&vec![ExcerptId(1)]);
    let mut update = None;
    let added = EditorEvent::ExcerptsAdded { buffer_id: BufferId(2), predecessor: ExcerptId(2), excerpts: run };
    leader_editor.add_event_to_update_proto(&added, &mut update);
    leader_editor.add_event_to_update_proto(&EditorEvent::ExcerptsRemoved { ids: vec![ExcerptId(1)] }, &mut update);
    apply_excerpt_changes(&mut follower, &update.unwrap(), &vec![buffer(1), buffer(2)]);
    let fresh = build_multi_buffer(&leader_editor.to_state_proto().unwrap(), &vec![buffer(1), buffer(2)]);
    assert_eq!(follower.excerpts(), leader_editor.buffer.excerpts());
    assert_eq!(fresh.excerpts(), follower.excerpts());
    assert_eq!(fresh.title(), follower.title());
    assert_eq!(fresh.is_singleton(), follower.is_singleton());
}
