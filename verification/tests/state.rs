use rxpr::state::State;

fn type_in(state: &mut State, text: &str) {
    for c in text.chars() {
        state.input(c);
    }
}

#[test]
fn typing_updates_the_result() {
    let mut s = State::new();
    assert_eq!(s.last_result(), None);
    type_in(&mut s, "1+2");
    assert_eq!(s.expr(), "1+2");
    assert_eq!(s.cursor(), 3);
    assert_eq!(s.last_result(), Some(3));
}

#[test]
fn broken_input_keeps_the_old_result() {
    let mut s = State::new();
    type_in(&mut s, "6*7");
    assert_eq!(s.last_result(), Some(42));
    s.input('+');
    assert_eq!(s.expr(), "6*7+");
    assert_eq!(s.last_result(), Some(42));
    s.input('1');
    assert_eq!(s.last_result(), Some(43));
}

#[test]
fn cursor_moves_stay_inside_the_text() {
    let mut s = State::new();
    type_in(&mut s, "12");
    s.cursor_left();
    assert_eq!(s.cursor(), 1);
    s.cursor_left();
    s.cursor_left();
    assert_eq!(s.cursor(), 0);
    s.cursor_right();
    s.cursor_right();
    s.cursor_right();
    assert_eq!(s.cursor(), 2);
    s.cursor_first();
    assert_eq!(s.cursor(), 0);
    s.cursor_last();
    assert_eq!(s.cursor(), 2);
}

#[test]
fn editing_in_the_middle() {
    let mut s = State::new();
    type_in(&mut s, "13");
    s.cursor_left();
    s.input('2');
    assert_eq!(s.expr(), "123");
    assert_eq!(s.last_result(), Some(123));
    s.backspace();
    assert_eq!(s.expr(), "13");
    assert_eq!(s.last_result(), Some(13));
    s.cursor_first();
    s.delete();
    assert_eq!(s.expr(), "3");
    assert_eq!(s.last_result(), Some(3));
}

#[test]
fn backspace_at_the_start_does_nothing() {
    let mut s = State::new();
    type_in(&mut s, "5");
    s.cursor_first();
    s.backspace();
    assert_eq!(s.expr(), "5");
    s.delete();
    assert_eq!(s.expr(), "");
}

#[test]
fn clear_keeps_the_last_result() {
    let mut s = State::new();
    type_in(&mut s, "2+2");
    s.clear();
    assert_eq!(s.expr(), "");
    assert_eq!(s.cursor(), 0);
    assert_eq!(s.last_result(), Some(4));
}
