use softrender::input::{poll_frame, Input};

const ESC: i32 = 27;

#[test]
fn keys_are_collected_in_order() {
    let events = vec![Input::KeyDown(97), Input::Other, Input::KeyDown(98)];
    assert_eq!(poll_frame(&events, ESC), Some(vec![97, 98]));
    assert_eq!(poll_frame(&vec![], ESC), Some(vec![]));
}

#[test]
fn quit_or_escape_stops() {
    assert_eq!(poll_frame(&vec![Input::KeyDown(97), Input::Quit], ESC), None);
    assert_eq!(poll_frame(&vec![Input::KeyDown(ESC), Input::KeyDown(97)], ESC), None);
}
