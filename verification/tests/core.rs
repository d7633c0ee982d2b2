use chart_core::command::{Command, CreateBpmPoint, EditBpmPoint, RemoveBpmPoint};
use chart_core::history::EditHistory;
use chart_core::rational::Rat;
use chart_core::timeline::{duration_to_height, time_to_y, track_center_x, Viewport};
use chart_core::timing::{BpmList, BpmPoint};

fn point(beat: i64, bpm: i64) -> BpmPoint {
    BpmPoint::new(Rat::from_int(beat), Rat::from_int(bpm))
}

fn list_of(points: &[(i64, i64)]) -> BpmList {
    let mut list = BpmList::new();
    for &(beat, bpm) in points {
        list.push_point(point(beat, bpm));
    }
    list
}

fn points_equal(list: &BpmList, expected: &[(i64, i64)]) -> bool {
    if list.len() != expected.len() {
        return false;
    }
    for (i, &(beat, bpm)) in expected.iter().enumerate() {
        if list.point_at(i) != point(beat, bpm) {
            return false;
        }
    }
    true
}

#[test]
fn time_at_constant_bpm() {
    // 4 beats at 120 BPM last exactly 2 seconds.
    let list = list_of(&[(0, 120)]);
    let t = list.time_at(Rat::from_int(4));
    assert!(t.eq_val(Rat::from_int(2)));
}

#[test]
fn time_at_after_tempo_change() {
    // After inserting a 240 BPM change at beat 4, beats 4..8 take
    // 4 * 60 / 240 = 1 second, so beat 8 sits at 3 seconds; undoing the
    // insertion restores the constant-120 answer of 4 seconds.
    let mut list = list_of(&[(0, 120)]);
    let mut history = EditHistory::new();
    history.record(
        Command::Create(CreateBpmPoint::new(point(4, 240))),
        &mut list,
    );
    let t = list.time_at(Rat::from_int(8));
    assert!(t.eq_val(Rat::from_int(3)));
    assert!(history.undo(&mut list));
    let t = list.time_at(Rat::from_int(8));
    assert!(t.eq_val(Rat::from_int(4)));
}

#[test]
fn time_at_fractional() {
    // Beat 7 1/2 under 120 then 240 BPM: 2s for beats 0..4, then
    // 3.5 * 60 / 240 = 7/8 s, total 23/8 s.
    let list = list_of(&[(0, 120), (4, 240)]);
    let beat = Rat::new(15, 2);
    let t = list.time_at(beat);
    assert!(t.eq_val(Rat::new(23, 8)));
}

#[test]
fn beat_at_inverts_time_at() {
    let list = list_of(&[(0, 120), (4, 240), (9, 90)]);
    for &(num, den) in &[(0i64, 1i64), (1, 2), (4, 1), (15, 2), (9, 1), (37, 3)] {
        let beat = Rat::new(num, den);
        let t = list.time_at(beat);
        let back = list.beat_at(t);
        assert!(back.eq_val(beat));
    }
}

#[test]
fn remove_then_undo_restores_list() {
    let all = [(0i64, 120i64), (4, 240), (8, 60)];
    let mut list = list_of(&all);
    for index in 0..3usize {
        let mut cmd = RemoveBpmPoint::new(index);
        cmd.edit(&mut list);
        assert_eq!(list.len(), 2);
        cmd.undo(&mut list);
        assert!(points_equal(&list, &all));
    }
}

#[test]
fn edit_then_undo_restores_value() {
    let mut list = list_of(&[(0, 120), (4, 240)]);
    let mut cmd = EditBpmPoint::new(1, point(4, 240), point(5, 180));
    cmd.edit(&mut list);
    assert!(points_equal(&list, &[(0, 120), (5, 180)]));
    cmd.undo(&mut list);
    assert!(points_equal(&list, &[(0, 120), (4, 240)]));
}

#[test]
fn undo_all_then_redo_all() {
    // Three commands; three undos restore the start; three redos restore
    // the edited state.
    let mut list = list_of(&[(0, 120)]);
    let mut history = EditHistory::new();
    history.record(
        Command::Create(CreateBpmPoint::new(point(4, 240))),
        &mut list,
    );
    history.record(
        Command::Edit(EditBpmPoint::new(1, point(4, 240), point(4, 200))),
        &mut list,
    );
    history.record(Command::Remove(RemoveBpmPoint::new(0)), &mut list);
    assert!(points_equal(&list, &[(4, 200)]));
    assert!(history.undo(&mut list));
    assert!(history.undo(&mut list));
    assert!(history.undo(&mut list));
    assert!(points_equal(&list, &[(0, 120)]));
    assert!(history.redo(&mut list));
    assert!(history.redo(&mut list));
    assert!(history.redo(&mut list));
    assert!(points_equal(&list, &[(4, 200)]));
}

#[test]
fn record_clears_redo() {
    let mut list = list_of(&[(0, 120)]);
    let mut history = EditHistory::new();
    history.record(
        Command::Create(CreateBpmPoint::new(point(4, 240))),
        &mut list,
    );
    assert!(history.undo(&mut list));
    assert!(history.has_redo());
    history.record(
        Command::Create(CreateBpmPoint::new(point(2, 60))),
        &mut list,
    );
    assert!(!history.has_redo());
    assert!(!history.redo(&mut list));
}

#[test]
fn empty_history_noops() {
    let mut list = list_of(&[(0, 120)]);
    let mut history = EditHistory::new();
    assert!(!history.undo(&mut list));
    assert!(points_equal(&list, &[(0, 120)]));
    assert!(!history.redo(&mut list));
    assert!(points_equal(&list, &[(0, 120)]));
}

#[test]
fn duration_to_height_is_linear() {
    // With 3 pixels per second, 2 s maps to 6 px and 4 s to 12 px.
    let vp = Viewport::new(Rat::zero(), Rat::zero(), Rat::from_int(3));
    let d = Rat::from_int(2);
    let h1 = duration_to_height(vp, d);
    let h2 = duration_to_height(vp, d.times(Rat::from_int(2)));
    assert!(h1.eq_val(Rat::from_int(6)));
    assert!(h2.eq_val(Rat::from_int(12)));
    assert!(h2.eq_val(h1.times(Rat::from_int(2))));
}

#[test]
fn time_to_y_matches_height_difference() {
    // Distance between two mapped rows equals the mapped duration.
    let vp = Viewport::new(Rat::from_int(1), Rat::from_int(50), Rat::from_int(7));
    let y1 = time_to_y(vp, Rat::from_int(3));
    let y2 = time_to_y(vp, Rat::from_int(8));
    let h = duration_to_height(vp, Rat::from_int(5));
    assert!(y2.minus(y1).eq_val(h));
    assert!(y1.eq_val(Rat::from_int(64)));
    assert!(y2.eq_val(Rat::from_int(99)));
}

#[test]
fn track_centers_divide_width_evenly() {
    // Five lanes over 100 px from x = 10: centres at 20, 40, 60, 80, 100.
    let min_x = Rat::from_int(10);
    let width = Rat::from_int(100);
    for track in 1..=5u32 {
        let x = track_center_x(min_x, width, 5, track);
        let expected = Rat::from_int(10 + 20 * track as i64 - 10);
        assert!(x.eq_val(expected));
    }
}

#[test]
fn rational_comparisons() {
    let half = Rat::new(1, 2);
    let two_quarters = Rat::new(2, 4);
    let third = Rat::new(1, 3);
    assert!(half.eq_val(two_quarters));
    assert!(third.lt(half));
    assert!(third.le(half));
    assert!(half.le(two_quarters));
    assert!(!half.lt(two_quarters));
    let sum = third.plus(half);
    assert!(sum.eq_val(Rat::new(5, 6)));
    let diff = half.minus(third);
    assert!(diff.eq_val(Rat::new(1, 6)));
    let q = half.divide(third);
    assert!(q.eq_val(Rat::new(3, 2)));
}
