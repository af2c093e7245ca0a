use scrcpy::protocol::control::{
    AndroidKeyEventAction, AndroidMotionEventAction, ControlMessage, ControlMessageType, Position,
    POINTER_ID_GENERIC_FINGER, POINTER_ID_MOUSE, POINTER_ID_VIRTUAL_FINGER, PRESSURE_FULL,
};

fn bytes_of(msg: &ControlMessage) -> Vec<u8> {
    let mut buf = Vec::new();
    let n = msg.serialize(&mut buf);
    assert_eq!(n, buf.len());
    buf
}

#[test]
fn message_type_numbers() {
    assert_eq!(ControlMessageType::InjectKeycode.code(), 0);
    assert_eq!(ControlMessageType::InjectText.code(), 1);
    assert_eq!(ControlMessageType::InjectTouchEvent.code(), 2);
    assert_eq!(ControlMessageType::InjectScrollEvent.code(), 3);
    assert_eq!(ControlMessageType::BackOrScreenOn.code(), 4);
    assert_eq!(ControlMessageType::ExpandNotificationPanel.code(), 5);
    assert_eq!(ControlMessageType::ExpandSettingsPanel.code(), 6);
    assert_eq!(ControlMessageType::CollapsePanels.code(), 7);
    assert_eq!(ControlMessageType::GetClipboard.code(), 8);
    assert_eq!(ControlMessageType::SetClipboard.code(), 9);
    assert_eq!(ControlMessageType::SetDisplayPower.code(), 10);
    assert_eq!(ControlMessageType::RotateDevice.code(), 11);
    assert_eq!(ControlMessageType::UhidCreate.code(), 12);
    assert_eq!(ControlMessageType::UhidInput.code(), 13);
    assert_eq!(ControlMessageType::UhidDestroy.code(), 14);
    assert_eq!(ControlMessageType::OpenHardKeyboardSettings.code(), 15);
    assert_eq!(ControlMessageType::StartApp.code(), 16);
    assert_eq!(ControlMessageType::ResetVideo.code(), 17);
}

#[test]
fn action_numbers() {
    assert_eq!(AndroidKeyEventAction::Down.code(), 0);
    assert_eq!(AndroidKeyEventAction::Up.code(), 1);
    assert_eq!(AndroidMotionEventAction::Down.code(), 0);
    assert_eq!(AndroidMotionEventAction::Up.code(), 1);
    assert_eq!(AndroidMotionEventAction::Move.code(), 2);
}

#[test]
fn pointer_ids() {
    assert_eq!(POINTER_ID_MOUSE, u64::MAX);
    assert_eq!(POINTER_ID_GENERIC_FINGER, u64::MAX - 1);
    assert_eq!(POINTER_ID_VIRTUAL_FINGER, u64::MAX - 2);
}

#[test]
fn touch_down_is_32_bytes() {
    let msg = ControlMessage::touch_down(0x0102_0304, 0x0506_0708, 1080, 2400);
    let b = bytes_of(&msg);
    assert_eq!(b.len(), 32);
    assert_eq!(
        b,
        vec![
            2, 0, 0xff, 0xff, 0xff, 0xff, 0xff, 0xff, 0xff, 0xff, 0x01, 0x02, 0x03, 0x04, 0x05,
            0x06, 0x07, 0x08, 0x04, 0x38, 0x09, 0x60, 0xff, 0xff, 0, 0, 0, 0, 0, 0, 0, 0
        ]
    );
}

#[test]
fn touch_constructors() {
    for (msg, action) in [
        (ControlMessage::touch_down(1, 2, 3, 4), AndroidMotionEventAction::Down),
        (ControlMessage::touch_up(1, 2, 3, 4), AndroidMotionEventAction::Up),
        (ControlMessage::touch_move(1, 2, 3, 4), AndroidMotionEventAction::Move),
    ] {
        match msg {
            ControlMessage::InjectTouchEvent {
                action: a,
                pointer_id,
                position,
                pressure,
                action_button,
                buttons,
            } => {
                assert_eq!(a, action);
                assert_eq!(pointer_id, POINTER_ID_MOUSE);
                assert_eq!((position.x, position.y), (1, 2));
                assert_eq!((position.screen_width, position.screen_height), (3, 4));
                assert_eq!(pressure, PRESSURE_FULL);
                assert_eq!((action_button, buttons), (0, 0));
            }
            other => panic!("unexpected {:?}", other),
        }
        assert_eq!(bytes_of(&msg)[1], action.code());
    }
}

#[test]
fn key_events() {
    let down = bytes_of(&ControlMessage::key_down(66, 0x1000));
    assert_eq!(down, vec![0, 0, 0, 0, 0, 66, 0, 0, 0, 0, 0, 0, 0x10, 0x00]);
    let up = bytes_of(&ControlMessage::key_up(4, 0));
    assert_eq!(up, vec![0, 1, 0, 0, 0, 4, 0, 0, 0, 0, 0, 0, 0, 0]);
}

#[test]
fn text_is_length_prefixed() {
    let msg = ControlMessage::InjectText { text: "hello".to_string() };
    assert_eq!(bytes_of(&msg), vec![1, 0, 0, 0, 5, b'h', b'e', b'l', b'l', b'o']);
}

#[test]
fn long_text_is_cut_at_300_bytes() {
    let text = "x".repeat(400);
    let b = bytes_of(&ControlMessage::InjectText { text });
    assert_eq!(b.len(), 305);
    assert_eq!(&b[1..5], &[0, 0, 1, 44]);
}

#[test]
fn text_is_cut_at_a_char_boundary() {
    // 299 ASCII bytes then a two-byte character: byte 300 would split it.
    let mut text = "a".repeat(299);
    text.push('é');
    let b = bytes_of(&ControlMessage::InjectText { text: text.clone() });
    assert_eq!(&b[1..5], &[0, 0, 1, 43]);
    assert_eq!(b.len(), 5 + 299);
    assert!(std::str::from_utf8(&b[5..]).is_ok());

    // Exactly 300 bytes ending with the two-byte character fits whole.
    let mut text = "a".repeat(298);
    text.push('é');
    let b = bytes_of(&ControlMessage::InjectText { text });
    assert_eq!(&b[1..5], &[0, 0, 1, 44]);

    // Four-byte characters only.
    let text = "😀".repeat(100);
    let b = bytes_of(&ControlMessage::InjectText { text });
    assert_eq!(&b[1..5], &[0, 0, 1, 44]);
    assert!(std::str::from_utf8(&b[5..]).is_ok());
}

#[test]
fn empty_text() {
    let b = bytes_of(&ControlMessage::InjectText { text: String::new() });
    assert_eq!(b, vec![1, 0, 0, 0, 0]);
}

#[test]
fn scroll_event_is_21_bytes() {
    let msg = ControlMessage::scroll(10, 20, 100, 200, -32767, 16384);
    let b = bytes_of(&msg);
    assert_eq!(
        b,
        vec![3, 0, 0, 0, 10, 0, 0, 0, 20, 0, 100, 0, 200, 0x80, 0x01, 0x40, 0x00, 0, 0, 0, 0]
    );
}

#[test]
fn single_byte_and_two_byte_messages() {
    assert_eq!(bytes_of(&ControlMessage::ExpandNotificationPanel), vec![5]);
    assert_eq!(bytes_of(&ControlMessage::ExpandSettingsPanel), vec![6]);
    assert_eq!(bytes_of(&ControlMessage::CollapsePanels), vec![7]);
    assert_eq!(bytes_of(&ControlMessage::RotateDevice), vec![11]);
    assert_eq!(bytes_of(&ControlMessage::SetDisplayPower { on: true }), vec![10, 1]);
    assert_eq!(bytes_of(&ControlMessage::SetDisplayPower { on: false }), vec![10, 0]);
    assert_eq!(
        bytes_of(&ControlMessage::BackOrScreenOn { action: AndroidKeyEventAction::Up }),
        vec![4, 1]
    );
}

#[test]
fn serialize_appends_to_existing_content() {
    let mut buf = vec![0xaa, 0xbb];
    let n = ControlMessage::SetDisplayPower { on: true }.serialize(&mut buf);
    assert_eq!(n, 2);
    assert_eq!(buf, vec![0xaa, 0xbb, 10, 1]);
}

#[test]
fn position_constructor_and_custom_touch() {
    let p = Position::new(7, 8, 9, 10);
    let msg = ControlMessage::InjectTouchEvent {
        action: AndroidMotionEventAction::Move,
        pointer_id: POINTER_ID_GENERIC_FINGER,
        position: p,
        pressure: 0x8000,
        action_button: 1,
        buttons: 2,
    };
    let b = bytes_of(&msg);
    assert_eq!(b.len(), 32);
    assert_eq!(&b[2..10], &POINTER_ID_GENERIC_FINGER.to_be_bytes());
    assert_eq!(&b[10..22], &[0, 0, 0, 7, 0, 0, 0, 8, 0, 9, 0, 10]);
    assert_eq!(&b[22..24], &[0x80, 0x00]);
    assert_eq!(&b[24..32], &[0, 0, 0, 1, 0, 0, 0, 2]);
}
