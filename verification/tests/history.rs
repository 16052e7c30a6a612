use extrem::history::{EditHistory, EditorLimits};

fn limits(max: usize) -> EditorLimits {
    EditorLimits { max_history_entries: max, max_name_bytes: 16 }
}

#[test]
fn history_is_bounded_across_edits_undo_and_redo() {
    for limit in [0usize, 1, 3, 16] {
        let mut position: i64 = 0;
        let mut history = EditHistory::with_limits(limits(limit));
        for step in 0..32usize {
            position += 1;
            history.record(1i64);
            assert_eq!(history.undo_len(), (step + 1).min(limit));
            assert_eq!(history.redo_len(), 0);
        }
        for undone in 0..limit {
            assert_eq!(
                history.undo_with(|delta| {
                    position -= *delta;
                    Ok::<(), ()>(())
                }),
                Ok(true)
            );
            assert_eq!(history.undo_len() + history.redo_len(), limit);
            assert_eq!(history.redo_len(), undone + 1);
        }
        assert_eq!(history.undo_with(|_| Ok::<(), ()>(())), Ok(false));
        assert_eq!(position, (32 - limit) as i64);
        for _ in 0..limit {
            assert_eq!(
                history.redo_with(|delta| {
                    position += *delta;
                    Ok::<(), ()>(())
                }),
                Ok(true)
            );
            assert_eq!(history.undo_len() + history.redo_len(), limit);
        }
        assert_eq!(history.redo_with(|_| Ok::<(), ()>(())), Ok(false));
        assert_eq!(position, 32);
    }
}

#[test]
fn failed_undo_preserves_the_record_for_retry() {
    let mut history = EditHistory::with_limits(EditorLimits::default());
    history.record("rename");
    assert_eq!(history.undo_with(|_| Err::<(), &str>("missing")), Err("missing"));
    assert_eq!((history.undo_len(), history.redo_len()), (1, 0));
    let mut seen = None;
    assert_eq!(
        history.undo_with(|record| {
            seen = Some(*record);
            Ok::<(), &str>(())
        }),
        Ok(true)
    );
    assert_eq!(seen, Some("rename"));
    assert_eq!((history.undo_len(), history.redo_len()), (0, 1));
}

#[test]
fn failed_redo_preserves_the_record_for_retry() {
    let mut history = EditHistory::with_limits(EditorLimits::default());
    history.record(1);
    history.undo_with(|_| Ok::<(), ()>(())).unwrap();
    assert_eq!(history.redo_with(|_| Err::<(), ()>(())), Err(()));
    assert_eq!((history.undo_len(), history.redo_len()), (0, 1));
    assert_eq!(history.redo_with(|_| Ok::<(), ()>(())), Ok(true));
    assert_eq!((history.undo_len(), history.redo_len()), (1, 0));
    assert_eq!(history.redo_with(|_| Ok::<(), ()>(())), Ok(false));
}

#[test]
fn zero_limit_disables_recording_not_editing() {
    let mut history = EditHistory::with_limits(limits(0));
    history.record(1);
    assert_eq!(history.undo_len(), 0);
    assert_eq!(history.undo_with(|_| Ok::<(), ()>(())), Ok(false));
    assert_eq!(EditorLimits::default(), EditorLimits { max_history_entries: 256, max_name_bytes: 4096 });
}

#[test]
fn undo_and_redo_replay_newest_records_first() {
    let mut history = EditHistory::with_limits(limits(8));
    history.record('a');
    history.record('b');
    let mut order = Vec::new();
    history.undo_with(|r| {
        order.push(*r);
        Ok::<(), ()>(())
    }).unwrap();
    history.undo_with(|r| {
        order.push(*r);
        Ok::<(), ()>(())
    }).unwrap();
    history.redo_with(|r| {
        order.push(*r);
        Ok::<(), ()>(())
    }).unwrap();
    assert_eq!(order, vec!['b', 'a', 'a']);
    history.clear_history();
    assert_eq!((history.undo_len(), history.redo_len()), (0, 0));
    assert_eq!(history.limits(), limits(8));
}
