//! Control messages sent from the client to the scrcpy server.
//!
//! Every message is one type byte followed by its payload; all integers are
//! big-endian.
use crate::wire::{
    append_bytes, be16_at, be32_at, be64_at, be_bytes, lemma_be_bytes_at, lemma_be_bytes_small,
    write_be_i16, write_be_u16, write_be_u32, write_be_u64,
};
use vstd::prelude::*;
use vstd::string::StringSliceAdditionalSpecFns;
use vstd::utf8::{is_char_boundary, valid_utf8};

verus! {

/// The control message types of the scrcpy protocol, numbered 0 to 17 in
/// this order.
#[derive(Debug, Clone, Copy, PartialEq, Eq, Structural)]
pub enum ControlMessageType {
    InjectKeycode,
    InjectText,
    InjectTouchEvent,
    InjectScrollEvent,
    BackOrScreenOn,
    ExpandNotificationPanel,
    ExpandSettingsPanel,
    CollapsePanels,
    GetClipboard,
    SetClipboard,
    SetDisplayPower,
    RotateDevice,
    UhidCreate,
    UhidInput,
    UhidDestroy,
    OpenHardKeyboardSettings,
    StartApp,
    ResetVideo,
}

/// Wire number of a message type.
pub open spec fn type_code(t: ControlMessageType) -> u8 {
    match t {
        ControlMessageType::InjectKeycode => 0,
        ControlMessageType::InjectText => 1,
        ControlMessageType::InjectTouchEvent => 2,
        ControlMessageType::InjectScrollEvent => 3,
        ControlMessageType::BackOrScreenOn => 4,
        ControlMessageType::ExpandNotificationPanel => 5,
        ControlMessageType::ExpandSettingsPanel => 6,
        ControlMessageType::CollapsePanels => 7,
        ControlMessageType::GetClipboard => 8,
        ControlMessageType::SetClipboard => 9,
        ControlMessageType::SetDisplayPower => 10,
        ControlMessageType::RotateDevice => 11,
        ControlMessageType::UhidCreate => 12,
        ControlMessageType::UhidInput => 13,
        ControlMessageType::UhidDestroy => 14,
        ControlMessageType::OpenHardKeyboardSettings => 15,
        ControlMessageType::StartApp => 16,
        ControlMessageType::ResetVideo => 17,
    }
}

impl ControlMessageType {
    /// The type's number on the wire.
    pub fn code(self) -> (r: u8)
        ensures
            r == type_code(self),
    {
        match self {
            ControlMessageType::InjectKeycode => 0,
            ControlMessageType::InjectText => 1,
            ControlMessageType::InjectTouchEvent => 2,
            ControlMessageType::InjectScrollEvent => 3,
            ControlMessageType::BackOrScreenOn => 4,
            ControlMessageType::ExpandNotificationPanel => 5,
            ControlMessageType::ExpandSettingsPanel => 6,
            ControlMessageType::CollapsePanels => 7,
            ControlMessageType::GetClipboard => 8,
            ControlMessageType::SetClipboard => 9,
            ControlMessageType::SetDisplayPower => 10,
            ControlMessageType::RotateDevice => 11,
            ControlMessageType::UhidCreate => 12,
            ControlMessageType::UhidInput => 13,
            ControlMessageType::UhidDestroy => 14,
            ControlMessageType::OpenHardKeyboardSettings => 15,
            ControlMessageType::StartApp => 16,
            ControlMessageType::ResetVideo => 17,
        }
    }
}

/// Android `KeyEvent` actions: `Down` is 0, `Up` is 1.
#[derive(Debug, Clone, Copy, PartialEq, Eq, Structural)]
pub enum AndroidKeyEventAction {
    Down,
    Up,
}

/// Wire number of a key action.
pub open spec fn key_action_code(a: AndroidKeyEventAction) -> u8 {
    match a {
        AndroidKeyEventAction::Down => 0,
        AndroidKeyEventAction::Up => 1,
    }
}

impl AndroidKeyEventAction {
    /// The action's number on the wire.
    pub fn code(self) -> (r: u8)
        ensures
            r == key_action_code(self),
    {
        match self {
            AndroidKeyEventAction::Down => 0,
            AndroidKeyEventAction::Up => 1,
        }
    }
}

/// Android `MotionEvent` actions: `Down` is 0, `Up` is 1, `Move` is 2.
#[derive(Debug, Clone, Copy, PartialEq, Eq, Structural)]
pub enum AndroidMotionEventAction {
    Down,
    Up,
    Move,
}

/// Wire number of a motion action.
pub open spec fn motion_action_code(a: AndroidMotionEventAction) -> u8 {
    match a {
        AndroidMotionEventAction::Down => 0,
        AndroidMotionEventAction::Up => 1,
        AndroidMotionEventAction::Move => 2,
    }
}

impl AndroidMotionEventAction {
    /// The action's number on the wire.
    pub fn code(self) -> (r: u8)
        ensures
            r == motion_action_code(self),
    {
        match self {
            AndroidMotionEventAction::Down => 0,
            AndroidMotionEventAction::Up => 1,
            AndroidMotionEventAction::Move => 2,
        }
    }
}

/// A point on the device screen, with the screen size it refers to.
#[derive(Debug, Clone, Copy)]
pub struct Position {
    pub x: u32,
    pub y: u32,
    pub screen_width: u16,
    pub screen_height: u16,
}

/// The 12 bytes of a position: `x` and `y` as u32, then the screen width
/// and height as u16.
pub open spec fn position_bytes(p: Position) -> Seq<u8> {
    be_bytes(p.x as nat, 4) + be_bytes(p.y as nat, 4) + be_bytes(p.screen_width as nat, 2)
        + be_bytes(p.screen_height as nat, 2)
}

impl Position {
    pub fn new(x: u32, y: u32, screen_width: u16, screen_height: u16) -> (r: Self)
        ensures
            r == (Position { x, y, screen_width, screen_height }),
    {
        Position { x, y, screen_width, screen_height }
    }

    fn serialize(&self, buf: &mut Vec<u8>)
        ensures
            final(buf)@ == old(buf)@ + position_bytes(*self),
    {
        append_bytes(buf, &write_be_u32(self.x));
        append_bytes(buf, &write_be_u32(self.y));
        append_bytes(buf, &write_be_u16(self.screen_width));
        append_bytes(buf, &write_be_u16(self.screen_height));
    }
}

/// Pointer id of the mouse.
pub const POINTER_ID_MOUSE: u64 = 0xFFFF_FFFF_FFFF_FFFF;

/// Pointer id of a generic finger.
pub const POINTER_ID_GENERIC_FINGER: u64 = 0xFFFF_FFFF_FFFF_FFFE;

/// Pointer id of the virtual finger used for pinch gestures.
pub const POINTER_ID_VIRTUAL_FINGER: u64 = 0xFFFF_FFFF_FFFF_FFFD;

/// Most bytes of text one `InjectText` message carries.
pub const TEXT_MAX_BYTES: usize = 300;

/// Wire value of a full touch pressure (1.0).
pub const PRESSURE_FULL: u16 = 0xFFFF;

/// A message of the control channel.
///
/// Pressure and scroll amounts are held as the fixed-point values that go
/// on the wire: `pressure` maps `0.0..=1.0` onto `0..=65535`, and
/// `hscroll`/`vscroll` map `-1.0..=1.0` onto `-32767..=32767`.
#[derive(Debug, Clone)]
pub enum ControlMessage {
    InjectKeycode { action: AndroidKeyEventAction, keycode: u32, repeat: u32, metastate: u32 },
    InjectText { text: String },
    InjectTouchEvent {
        action: AndroidMotionEventAction,
        pointer_id: u64,
        position: Position,
        pressure: u16,
        action_button: u32,
        buttons: u32,
    },
    InjectScrollEvent { position: Position, hscroll: i16, vscroll: i16, buttons: u32 },
    BackOrScreenOn { action: AndroidKeyEventAction },
    ExpandNotificationPanel,
    ExpandSettingsPanel,
    CollapsePanels,
    SetDisplayPower { on: bool },
    RotateDevice,
}

/// The type of a message.
pub open spec fn message_type(m: ControlMessage) -> ControlMessageType {
    match m {
        ControlMessage::InjectKeycode { .. } => ControlMessageType::InjectKeycode,
        ControlMessage::InjectText { .. } => ControlMessageType::InjectText,
        ControlMessage::InjectTouchEvent { .. } => ControlMessageType::InjectTouchEvent,
        ControlMessage::InjectScrollEvent { .. } => ControlMessageType::InjectScrollEvent,
        ControlMessage::BackOrScreenOn { .. } => ControlMessageType::BackOrScreenOn,
        ControlMessage::ExpandNotificationPanel => ControlMessageType::ExpandNotificationPanel,
        ControlMessage::ExpandSettingsPanel => ControlMessageType::ExpandSettingsPanel,
        ControlMessage::CollapsePanels => ControlMessageType::CollapsePanels,
        ControlMessage::SetDisplayPower { .. } => ControlMessageType::SetDisplayPower,
        ControlMessage::RotateDevice => ControlMessageType::RotateDevice,
    }
}

/// Number of leading bytes of the UTF-8 text `bytes` that an `InjectText`
/// message carries: the largest char boundary at or below `limit`.
pub open spec fn text_cut(bytes: Seq<u8>, limit: int) -> int
    decreases limit,
{
    if limit <= 0 {
        0
    } else if is_char_boundary(bytes, limit) {
        limit
    } else {
        text_cut(bytes, limit - 1)
    }
}

/// The bytes of `text` that an `InjectText` message carries: at most
/// [`TEXT_MAX_BYTES`] of them, cut at a character boundary.
pub open spec fn text_payload(text: Seq<char>) -> Seq<u8> {
    let bytes = vstd::utf8::encode_utf8(text);
    let limit = if bytes.len() < TEXT_MAX_BYTES { bytes.len() as int } else { TEXT_MAX_BYTES as int };
    bytes.take(text_cut(bytes, limit))
}

/// The encoding of a message on the control channel.
pub open spec fn message_bytes(m: ControlMessage) -> Seq<u8> {
    seq![type_code(message_type(m))] + match m {
        ControlMessage::InjectKeycode { action, keycode, repeat, metastate } => seq![
            key_action_code(action),
        ] + be_bytes(keycode as nat, 4) + be_bytes(repeat as nat, 4) + be_bytes(
            metastate as nat,
            4,
        ),
        ControlMessage::InjectText { text } => be_bytes(text_payload(text@).len(), 4)
            + text_payload(text@),
        ControlMessage::InjectTouchEvent {
            action,
            pointer_id,
            position,
            pressure,
            action_button,
            buttons,
        } => seq![motion_action_code(action)] + be_bytes(pointer_id as nat, 8) + position_bytes(
            position,
        ) + be_bytes(pressure as nat, 2) + be_bytes(action_button as nat, 4) + be_bytes(
            buttons as nat,
            4,
        ),
        ControlMessage::InjectScrollEvent { position, hscroll, vscroll, buttons } => position_bytes(
            position,
        ) + be_bytes((hscroll as u16) as nat, 2) + be_bytes((vscroll as u16) as nat, 2)
            + be_bytes(buttons as nat, 4),
        ControlMessage::BackOrScreenOn { action } => seq![key_action_code(action)],
        ControlMessage::SetDisplayPower { on } => seq![if on { 1u8 } else { 0u8 }],
        _ => Seq::empty(),
    }
}

/// A touch event with the mouse pointer, full pressure and no buttons.
pub open spec fn mouse_touch(
    action: AndroidMotionEventAction,
    x: u32,
    y: u32,
    screen_width: u16,
    screen_height: u16,
) -> ControlMessage {
    ControlMessage::InjectTouchEvent {
        action,
        pointer_id: POINTER_ID_MOUSE,
        position: Position { x, y, screen_width, screen_height },
        pressure: PRESSURE_FULL,
        action_button: 0,
        buttons: 0,
    }
}

impl ControlMessage {
    /// Appends the encoding of the message to `buf` and returns the number
    /// of bytes written.
    pub fn serialize(&self, buf: &mut Vec<u8>) -> (r: usize)
        ensures
            final(buf)@ == old(buf)@ + message_bytes(*self),
            r == message_bytes(*self).len(),
    {
        let start_len = buf.len();
        match self {
            ControlMessage::InjectKeycode { action, keycode, repeat, metastate } => {
                buf.push(ControlMessageType::InjectKeycode.code());
                buf.push(action.code());
                append_bytes(buf, &write_be_u32(*keycode));
                append_bytes(buf, &write_be_u32(*repeat));
                append_bytes(buf, &write_be_u32(*metastate));
            },
            ControlMessage::InjectText { text } => {
                buf.push(ControlMessageType::InjectText.code());
                let text_bytes = text.as_str().as_bytes();
                // Truncate at a UTF-8 character boundary so a multibyte code
                // point is never split; the server limits injected text to
                // 300 bytes.
                let byte_limit = if text_bytes.len() < TEXT_MAX_BYTES {
                    text_bytes.len()
                } else {
                    TEXT_MAX_BYTES
                };
                let safe_limit = char_boundary_at_or_below(text.as_str(), byte_limit);
                append_bytes(buf, &write_be_u32(safe_limit as u32));
                append_bytes(buf, vstd::slice::slice_subrange(text_bytes, 0, safe_limit));
                assert(text_bytes@.subrange(0, safe_limit as int) == text_payload(text@));
            },
            ControlMessage::InjectTouchEvent {
                action,
                pointer_id,
                position,
                pressure,
                action_button,
                buttons,
            } => {
                buf.push(ControlMessageType::InjectTouchEvent.code());
                buf.push(action.code());
                append_bytes(buf, &write_be_u64(*pointer_id));
                position.serialize(buf);
                append_bytes(buf, &write_be_u16(*pressure));
                append_bytes(buf, &write_be_u32(*action_button));
                append_bytes(buf, &write_be_u32(*buttons));
            },
            ControlMessage::InjectScrollEvent { position, hscroll, vscroll, buttons } => {
                buf.push(ControlMessageType::InjectScrollEvent.code());
                position.serialize(buf);
                append_bytes(buf, &write_be_i16(*hscroll));
                append_bytes(buf, &write_be_i16(*vscroll));
                append_bytes(buf, &write_be_u32(*buttons));
            },
            ControlMessage::BackOrScreenOn { action } => {
                buf.push(ControlMessageType::BackOrScreenOn.code());
                buf.push(action.code());
            },
            ControlMessage::ExpandNotificationPanel => {
                buf.push(ControlMessageType::ExpandNotificationPanel.code());
            },
            ControlMessage::ExpandSettingsPanel => {
                buf.push(ControlMessageType::ExpandSettingsPanel.code());
            },
            ControlMessage::CollapsePanels => {
                buf.push(ControlMessageType::CollapsePanels.code());
            },
            ControlMessage::SetDisplayPower { on } => {
                buf.push(ControlMessageType::SetDisplayPower.code());
                buf.push(
                    if *on {
                        1
                    } else {
                        0
                    },
                );
            },
            ControlMessage::RotateDevice => {
                buf.push(ControlMessageType::RotateDevice.code());
            },
        }
        buf.len() - start_len
    }

    /// A mouse press at `(x, y)`.
    pub fn touch_down(x: u32, y: u32, screen_width: u16, screen_height: u16) -> (r: Self)
        ensures
            r == mouse_touch(AndroidMotionEventAction::Down, x, y, screen_width, screen_height),
    {
        ControlMessage::InjectTouchEvent {
            action: AndroidMotionEventAction::Down,
            pointer_id: POINTER_ID_MOUSE,
            position: Position::new(x, y, screen_width, screen_height),
            pressure: PRESSURE_FULL,
            action_button: 0,
            buttons: 0,
        }
    }

    /// A mouse release at `(x, y)`.
    pub fn touch_up(x: u32, y: u32, screen_width: u16, screen_height: u16) -> (r: Self)
        ensures
            r == mouse_touch(AndroidMotionEventAction::Up, x, y, screen_width, screen_height),
    {
        ControlMessage::InjectTouchEvent {
            action: AndroidMotionEventAction::Up,
            pointer_id: POINTER_ID_MOUSE,
            position: Position::new(x, y, screen_width, screen_height),
            pressure: PRESSURE_FULL,
            action_button: 0,
            buttons: 0,
        }
    }

    /// A mouse drag to `(x, y)`.
    pub fn touch_move(x: u32, y: u32, screen_width: u16, screen_height: u16) -> (r: Self)
        ensures
            r == mouse_touch(AndroidMotionEventAction::Move, x, y, screen_width, screen_height),
    {
        ControlMessage::InjectTouchEvent {
            action: AndroidMotionEventAction::Move,
            pointer_id: POINTER_ID_MOUSE,
            position: Position::new(x, y, screen_width, screen_height),
            pressure: PRESSURE_FULL,
            action_button: 0,
            buttons: 0,
        }
    }

    /// A key press of `keycode`, without repeat.
    pub fn key_down(keycode: u32, metastate: u32) -> (r: Self)
        ensures
            r == (ControlMessage::InjectKeycode {
                action: AndroidKeyEventAction::Down,
                keycode,
                repeat: 0,
                metastate,
            }),
    {
        ControlMessage::InjectKeycode {
            action: AndroidKeyEventAction::Down,
            keycode,
            repeat: 0,
            metastate,
        }
    }

    /// A key release of `keycode`, without repeat.
    pub fn key_up(keycode: u32, metastate: u32) -> (r: Self)
        ensures
            r == (ControlMessage::InjectKeycode {
                action: AndroidKeyEventAction::Up,
                keycode,
                repeat: 0,
                metastate,
            }),
    {
        ControlMessage::InjectKeycode {
            action: AndroidKeyEventAction::Up,
            keycode,
            repeat: 0,
            metastate,
        }
    }

    /// A scroll at `(x, y)` by the fixed-point amounts `hscroll` and
    /// `vscroll`, with no buttons held.
    pub fn scroll(
        x: u32,
        y: u32,
        screen_width: u16,
        screen_height: u16,
        hscroll: i16,
        vscroll: i16,
    ) -> (r: Self)
        ensures
            r == (ControlMessage::InjectScrollEvent {
                position: Position { x, y, screen_width, screen_height },
                hscroll,
                vscroll,
                buttons: 0,
            }),
    {
        ControlMessage::InjectScrollEvent {
            position: Position::new(x, y, screen_width, screen_height),
            hscroll,
            vscroll,
            buttons: 0,
        }
    }
}

/// Bytes `i..i + 12` encoding a position hold its coordinates and screen
/// size, big-endian.
proof fn lemma_position_at(b: Seq<u8>, i: int, p: Position)
    requires
        0 <= i,
        i + 12 <= b.len(),
        b.subrange(i, i + 12) == position_bytes(p),
    ensures
        be32_at(b, i) == p.x,
        be32_at(b, i + 4) == p.y,
        be16_at(b, i + 8) == p.screen_width,
        be16_at(b, i + 10) == p.screen_height,
{
    lemma_be_bytes_small(p.x as nat, 4);
    lemma_be_bytes_small(p.y as nat, 4);
    lemma_be_bytes_small(p.screen_width as nat, 2);
    lemma_be_bytes_small(p.screen_height as nat, 2);
    let x = b.subrange(i, i + 12);
    assert(x.subrange(0, 4) == be_bytes(p.x as nat, 4));
    assert(x.subrange(4, 8) == be_bytes(p.y as nat, 4));
    assert(x.subrange(8, 10) == be_bytes(p.screen_width as nat, 2));
    assert(x.subrange(10, 12) == be_bytes(p.screen_height as nat, 2));
    assert(b.subrange(i, i + 4) == x.subrange(0, 4));
    assert(b.subrange(i + 4, i + 8) == x.subrange(4, 8));
    assert(b.subrange(i + 8, i + 10) == x.subrange(8, 10));
    assert(b.subrange(i + 10, i + 12) == x.subrange(10, 12));
    lemma_be_bytes_at(b, i, p.x as nat, 4);
    lemma_be_bytes_at(b, i + 4, p.y as nat, 4);
    lemma_be_bytes_at(b, i + 8, p.screen_width as nat, 2);
    lemma_be_bytes_at(b, i + 10, p.screen_height as nat, 2);
}

/// The 16 bits of a signed value, as an unsigned number.
pub open spec fn twos_complement_16(v: i16) -> int {
    if v < 0 {
        v + 0x1_0000
    } else {
        v as int
    }
}

/// Casting a signed 16-bit value to unsigned keeps its two's-complement
/// bits.
proof fn lemma_twos_complement_16(v: i16)
    ensures
        (v as u16) as int == twos_complement_16(v),
{
    assert(v < 0i16 ==> (v as u16) as i32 == (v as i32) + 65536i32) by (bit_vector);
    assert(v >= 0i16 ==> (v as u16) as i32 == v as i32) by (bit_vector);
}

/// A key event is 14 bytes: type 0, the action (0 for down, 1 for up),
/// then keycode, repeat count and meta state as big-endian 32-bit numbers.
pub proof fn lemma_keycode_encoding(
    action: AndroidKeyEventAction,
    keycode: u32,
    repeat: u32,
    metastate: u32,
)
    ensures
        ({
            let b = message_bytes(
                ControlMessage::InjectKeycode { action, keycode, repeat, metastate },
            );
            &&& b.len() == 14
            &&& b[0] == 0
            &&& b[1] == (match action {
                AndroidKeyEventAction::Down => 0u8,
                AndroidKeyEventAction::Up => 1u8,
            })
            &&& be32_at(b, 2) == keycode
            &&& be32_at(b, 6) == repeat
            &&& be32_at(b, 10) == metastate
        }),
{
    let b = message_bytes(ControlMessage::InjectKeycode { action, keycode, repeat, metastate });
    lemma_be_bytes_small(keycode as nat, 4);
    lemma_be_bytes_small(repeat as nat, 4);
    lemma_be_bytes_small(metastate as nat, 4);
    assert(b.subrange(2, 6) == be_bytes(keycode as nat, 4));
    assert(b.subrange(6, 10) == be_bytes(repeat as nat, 4));
    assert(b.subrange(10, 14) == be_bytes(metastate as nat, 4));
    lemma_be_bytes_at(b, 2, keycode as nat, 4);
    lemma_be_bytes_at(b, 6, repeat as nat, 4);
    lemma_be_bytes_at(b, 10, metastate as nat, 4);
}

/// A back-or-screen-on command is type 4 then its key action: 0 for down,
/// 1 for up.
pub proof fn lemma_back_or_screen_on_encoding(action: AndroidKeyEventAction)
    ensures
        message_bytes(ControlMessage::BackOrScreenOn { action }) == seq![
            4u8,
            match action {
                AndroidKeyEventAction::Down => 0u8,
                AndroidKeyEventAction::Up => 1u8,
            },
        ],
{
}

/// A scroll event is 21 bytes: type 3, the position (x, y as 32 bits,
/// screen width and height as 16 bits), the horizontal and vertical amounts
/// as 16-bit two's complement, then the buttons as 32 bits, all big-endian.
pub proof fn lemma_scroll_encoding(position: Position, hscroll: i16, vscroll: i16, buttons: u32)
    ensures
        ({
            let b = message_bytes(
                ControlMessage::InjectScrollEvent { position, hscroll, vscroll, buttons },
            );
            &&& b.len() == 21
            &&& b[0] == 3
            &&& be32_at(b, 1) == position.x
            &&& be32_at(b, 5) == position.y
            &&& be16_at(b, 9) == position.screen_width
            &&& be16_at(b, 11) == position.screen_height
            &&& be16_at(b, 13) == twos_complement_16(hscroll)
            &&& be16_at(b, 15) == twos_complement_16(vscroll)
            &&& be32_at(b, 17) == buttons
        }),
{
    let b = message_bytes(ControlMessage::InjectScrollEvent { position, hscroll, vscroll, buttons });
    let h = (hscroll as u16) as nat;
    let v = (vscroll as u16) as nat;
    lemma_position_len(position);
    lemma_be_bytes_small(h, 2);
    lemma_be_bytes_small(v, 2);
    lemma_be_bytes_small(buttons as nat, 4);
    assert(b.subrange(1, 13) == position_bytes(position));
    assert(b.subrange(13, 15) == be_bytes(h, 2));
    assert(b.subrange(15, 17) == be_bytes(v, 2));
    assert(b.subrange(17, 21) == be_bytes(buttons as nat, 4));
    lemma_position_at(b, 1, position);
    lemma_be_bytes_at(b, 13, h, 2);
    lemma_be_bytes_at(b, 15, v, 2);
    lemma_be_bytes_at(b, 17, buttons as nat, 4);
    lemma_twos_complement_16(hscroll);
    lemma_twos_complement_16(vscroll);
}

/// A touch event is 32 bytes: type 2, the action (0 down, 1 up, 2 move),
/// the pointer id as 64 bits, the position, the pressure as 16 bits, then
/// the action button and the buttons as 32 bits, all big-endian.
pub proof fn lemma_touch_encoding(
    action: AndroidMotionEventAction,
    pointer_id: u64,
    position: Position,
    pressure: u16,
    action_button: u32,
    buttons: u32,
)
    ensures
        ({
            let b = message_bytes(
                ControlMessage::InjectTouchEvent {
                    action,
                    pointer_id,
                    position,
                    pressure,
                    action_button,
                    buttons,
                },
            );
            &&& b.len() == 32
            &&& b[0] == 2
            &&& b[1] == (match action {
                AndroidMotionEventAction::Down => 0u8,
                AndroidMotionEventAction::Up => 1u8,
                AndroidMotionEventAction::Move => 2u8,
            })
            &&& be64_at(b, 2) == pointer_id
            &&& be32_at(b, 10) == position.x
            &&& be32_at(b, 14) == position.y
            &&& be16_at(b, 18) == position.screen_width
            &&& be16_at(b, 20) == position.screen_height
            &&& be16_at(b, 22) == pressure
            &&& be32_at(b, 24) == action_button
            &&& be32_at(b, 28) == buttons
        }),
{
    let b = message_bytes(
        ControlMessage::InjectTouchEvent {
            action,
            pointer_id,
            position,
            pressure,
            action_button,
            buttons,
        },
    );
    lemma_position_len(position);
    lemma_be_bytes_small(pointer_id as nat, 8);
    lemma_be_bytes_small(pressure as nat, 2);
    lemma_be_bytes_small(action_button as nat, 4);
    lemma_be_bytes_small(buttons as nat, 4);
    assert(b.subrange(2, 10) == be_bytes(pointer_id as nat, 8));
    assert(b.subrange(10, 22) == position_bytes(position));
    assert(b.subrange(22, 24) == be_bytes(pressure as nat, 2));
    assert(b.subrange(24, 28) == be_bytes(action_button as nat, 4));
    assert(b.subrange(28, 32) == be_bytes(buttons as nat, 4));
    lemma_be_bytes_at(b, 2, pointer_id as nat, 8);
    lemma_position_at(b, 10, position);
    lemma_be_bytes_at(b, 22, pressure as nat, 2);
    lemma_be_bytes_at(b, 24, action_button as nat, 4);
    lemma_be_bytes_at(b, 28, buttons as nat, 4);
}

/// A text message is type 1, the number of text bytes as 32 bits, then
/// those bytes: the text's UTF-8 cut as `lemma_text_payload` describes.
pub proof fn lemma_text_encoding(text: String)
    ensures
        ({
            let b = message_bytes(ControlMessage::InjectText { text });
            &&& b.len() == 5 + text_payload(text@).len()
            &&& b[0] == 1
            &&& be32_at(b, 1) == text_payload(text@).len()
            &&& b.subrange(5, b.len() as int) == text_payload(text@)
        }),
{
    let b = message_bytes(ControlMessage::InjectText { text });
    let n = text_payload(text@).len();
    lemma_text_payload(text@);
    lemma_be_bytes_small(n, 4);
    assert(b.subrange(1, 5) == be_bytes(n, 4));
    lemma_be_bytes_at(b, 1, n, 4);
    assert(b.subrange(5, b.len() as int) == text_payload(text@));
}

/// The commands without arguments are their type number alone, and the
/// display power command is type 10 then 1 for on, 0 for off.
pub proof fn lemma_command_encodings(on: bool)
    ensures
        message_bytes(ControlMessage::ExpandNotificationPanel) == seq![5u8],
        message_bytes(ControlMessage::ExpandSettingsPanel) == seq![6u8],
        message_bytes(ControlMessage::CollapsePanels) == seq![7u8],
        message_bytes(ControlMessage::RotateDevice) == seq![11u8],
        message_bytes(ControlMessage::SetDisplayPower { on }) == seq![
            10u8,
            if on { 1u8 } else { 0u8 },
        ],
{
}

/// A position takes 12 bytes.
pub proof fn lemma_position_len(p: Position)
    ensures
        position_bytes(p).len() == 12,
{
    reveal_with_fuel(be_bytes, 5);
}

/// Every message starts with its type number, and each has a fixed length
/// but for text: a touch event takes 32 bytes, a key event 14, a scroll
/// event 21, and a text message 5 bytes plus at most 300 of text.
pub proof fn lemma_message_layout(m: ControlMessage)
    ensures
        message_bytes(m).len() >= 1,
        message_bytes(m)[0] == type_code(message_type(m)),
        message_bytes(m).len() == match m {
            ControlMessage::InjectKeycode { .. } => 14,
            ControlMessage::InjectText { text } => 5 + text_payload(text@).len(),
            ControlMessage::InjectTouchEvent { .. } => 32,
            ControlMessage::InjectScrollEvent { .. } => 21,
            ControlMessage::BackOrScreenOn { .. } => 2,
            ControlMessage::SetDisplayPower { .. } => 2,
            _ => 1,
        },
        m matches ControlMessage::InjectText { text } ==> text_payload(text@).len()
            <= TEXT_MAX_BYTES,
{
    reveal_with_fuel(be_bytes, 9);
    if let ControlMessage::InjectText { text } = m {
        lemma_text_payload(text@);
    }
}

/// The text an `InjectText` message carries is the longest prefix of the
/// text's UTF-8 encoding that is at most 300 bytes long and ends on a
/// character boundary; it is therefore valid UTF-8, and it is the whole
/// text when the text fits.
pub proof fn lemma_text_payload(text: Seq<char>)
    ensures
        ({
            let bytes = vstd::utf8::encode_utf8(text);
            let payload = text_payload(text);
            &&& payload.len() <= TEXT_MAX_BYTES
            &&& payload == bytes.take(payload.len() as int)
            &&& is_char_boundary(bytes, payload.len() as int)
            &&& valid_utf8(payload)
            &&& forall|c: int|
                payload.len() < c <= bytes.len() && c <= TEXT_MAX_BYTES ==> !is_char_boundary(
                    bytes,
                    c,
                )
            &&& bytes.len() <= TEXT_MAX_BYTES ==> payload == bytes
        }),
{
    let bytes = vstd::utf8::encode_utf8(text);
    let limit = if bytes.len() < TEXT_MAX_BYTES {
        bytes.len() as int
    } else {
        TEXT_MAX_BYTES as int
    };
    vstd::utf8::encode_utf8_valid_utf8(text);
    lemma_text_cut(bytes, limit);
    let n = text_cut(bytes, limit);
    vstd::utf8::valid_utf8_split(bytes, n);
    assert(bytes.take(n) == bytes.subrange(0, n));
    if bytes.len() <= TEXT_MAX_BYTES {
        vstd::utf8::is_char_boundary_start_end_of_seq(bytes);
        assert(bytes.take(bytes.len() as int) == bytes);
    }
}

/// `text_cut` picks the largest character boundary at or below the limit.
proof fn lemma_text_cut(bytes: Seq<u8>, limit: int)
    requires
        valid_utf8(bytes),
        limit <= bytes.len(),
    ensures
        0 <= text_cut(bytes, limit),
        limit >= 0 ==> text_cut(bytes, limit) <= limit,
        is_char_boundary(bytes, text_cut(bytes, limit)),
        forall|c: int| text_cut(bytes, limit) < c <= limit ==> !is_char_boundary(bytes, c),
    decreases limit,
{
    if limit > 0 && !is_char_boundary(bytes, limit) {
        lemma_text_cut(bytes, limit - 1);
    }
}

/// The largest character boundary of `text` at or below `limit`.
fn char_boundary_at_or_below(text: &str, limit: usize) -> (r: usize)
    requires
        limit <= text.spec_bytes().len(),
    ensures
        r == text_cut(text.spec_bytes(), limit as int),
        r <= limit,
{
    let mut i = limit;
    loop
        invariant
            i <= limit,
            text_cut(text.spec_bytes(), limit as int) == text_cut(text.spec_bytes(), i as int),
        decreases i,
    {
        if i == 0 || text.is_char_boundary(i) {
            return i;
        }
        i = i - 1;
    }
}

} // verus!
