//! Key identifiers and the vocabulary of hardware edges.

use vstd::prelude::*;

verus! {

/// An edge reported by the hardware: a key going down, or coming back up.
#[derive(Clone, Copy, Debug, PartialEq, Eq, Structural)]
pub enum EventType {
    /// The key went down.
    KeyDown,
    /// The key came up.
    KeyUp,
}

/// A key in the USB HID keyboard usage space.
#[derive(Clone, Copy, Debug, PartialEq, Eq, Structural)]
pub struct UsbKeycode {
    /// The usage code.
    pub data: u8,
}

impl UsbKeycode {
    /// The usage code that stands for "no key".
    pub open spec fn spec_null() -> UsbKeycode {
        UsbKeycode { data: 0 }
    }

    /// The usage code that stands for "no key".
    #[verifier::when_used_as_spec(spec_null)]
    pub fn null() -> (k: UsbKeycode)
        ensures
            k == Self::spec_null(),
    {
        UsbKeycode { data: 0 }
    }

    /// The eight modifier keys (left and right control, shift, alt, gui)
    /// occupy the usage codes 224 to 231.
    pub open spec fn spec_is_modifier(self) -> bool {
        224 <= self.data <= 231
    }

    /// Whether this is one of the eight modifier keys.
    #[verifier::when_used_as_spec(spec_is_modifier)]
    pub fn is_modifier(self) -> (r: bool)
        ensures
            r == self.spec_is_modifier(),
    {
        self.data >= 224 && self.data <= 231
    }
}

/// For each USB usage code, the key code that the Linux input layer gives
/// the same key; 0 where it has none.
pub const USB_KBD_KEYCODE: [u8; 256] = [
      0,   0,   0,   0,  30,  48,  46,  32,  18,  33,  34,  35,  23,  36,  37,  38,
     50,  49,  24,  25,  16,  19,  31,  20,  22,  47,  17,  45,  21,  44,   2,   3,
      4,   5,   6,   7,   8,   9,  10,  11,  28,   1,  14,  15,  57,  12,  13,  26,
     27,  43,  43,  39,  40,  41,  51,  52,  53,  58,  59,  60,  61,  62,  63,  64,
     65,  66,  67,  68,  87,  88,  99,  70, 119, 110, 102, 104, 111, 107, 109, 106,
    105, 108, 103,  69,  98,  55,  74,  78,  96,  79,  80,  81,  75,  76,  77,  71,
     72,  73,  82,  83,  86, 127, 116, 117, 183, 184, 185, 186, 187, 188, 189, 190,
    191, 192, 193, 194, 134, 138, 130, 132, 128, 129, 131, 137, 133, 135, 136, 113,
    115, 114,   0,   0,   0, 121,   0,  89,  93, 124,  92,  94,  95,   0,   0,   0,
    122, 123,  90,  91,  85,   0,   0,   0,   0,   0,   0,   0,   0,   0,   0,   0,
      0,   0,   0,   0,   0,   0,   0,   0,   0,   0,   0,   0,   0,   0,   0,   0,
      0,   0,   0,   0,   0,   0,   0,   0,   0,   0,   0,   0,   0,   0,   0,   0,
      0,   0,   0,   0,   0,   0,   0,   0,   0,   0,   0,   0,   0,   0,   0,   0,
      0,   0,   0,   0,   0,   0,   0,   0,   0,   0,   0,   0,   0,   0,   0,   0,
     29,  42,  56, 125,  97,  54, 100, 126, 164, 166, 165, 163, 161, 115, 114, 113,
    150, 158, 159, 128, 136, 177, 178, 176, 142, 152, 173, 140,   0,   0,   0,   0,
];

/// The entry of the reversed table for `code`: the last position of `table`
/// that holds `code`, as a byte, or 0 where no position holds it.
pub open spec fn reverse_lookup(table: Seq<u8>, code: int) -> u8
    decreases table.len(),
{
    if table.len() == 0 {
        0
    } else if table.last() == code {
        ((table.len() - 1) % 256) as u8
    } else {
        reverse_lookup(table.drop_last(), code)
    }
}

/// `reverse_lookup` gives the last position that holds the code.
pub proof fn lemma_reverse_lookup(table: Seq<u8>, code: int)
    ensures
        (forall|i: int| 0 <= i < table.len() ==> table[i] != code) ==> reverse_lookup(table, code)
            == 0,
        forall|i: int|
            0 <= i < table.len() && table[i] == code && (forall|j: int|
                i < j < table.len() ==> table[j] != code) ==> reverse_lookup(table, code) == i
                % 256,
    decreases table.len(),
{
    if table.len() > 0 {
        let rest = table.drop_last();
        lemma_reverse_lookup(rest, code);
        if table.last() != code {
            assert forall|i: int|
                0 <= i < table.len() && table[i] == code && (forall|j: int|
                    i < j < table.len() ==> table[j] != code) implies reverse_lookup(table, code)
                == i % 256 by {
                assert(rest[i] == code);
                assert forall|j: int| i < j < rest.len() implies rest[j] != code by {}
            }
            if forall|i: int| 0 <= i < table.len() ==> table[i] != code {
                assert forall|i: int| 0 <= i < rest.len() implies rest[i] != code by {}
            }
        }
    }
}

/// Turns a table from positions to codes into one from codes to positions.
///
/// Where a code stands at several positions the last one counts; a code
/// that stands nowhere gets 0.
pub fn reverse_map(arr: &[u8]) -> (map: [u8; 256])
    ensures
        forall|code: int| 0 <= code < 256 ==> #[trigger] map@[code] == reverse_lookup(arr@, code),
{
    let mut map: [u8; 256] = [0; 256];
    let mut i: usize = 0;
    while i < arr.len()
        invariant
            i <= arr@.len(),
            forall|code: int|
                0 <= code < 256 ==> #[trigger] map@[code] == reverse_lookup(
                    arr@.take(i as int),
                    code,
                ),
        decreases arr.len() - i,
    {
        assert(arr@.take(i + 1).drop_last() =~= arr@.take(i as int));
        let code: u8 = arr[i];
        map[code as usize] = (i % 256) as u8;
        i += 1;
    }
    assert(arr@.take(i as int) =~= arr@);
    map
}

/// The table that takes a key code of the Linux input layer to the USB
/// usage code of the same key. It is built once and handed to whoever
/// looks keys up.
#[derive(Clone, Copy, Debug)]
pub struct KeycodeMap {
    /// The usage code for each input key code; 0 where there is none.
    pub table: [u8; 256],
}

impl KeycodeMap {
    /// The usage code for an input key code. A key code beyond the table has
    /// none.
    pub open spec fn spec_keycode(&self, code: u16) -> Option<UsbKeycode> {
        if code < 256 {
            Some(UsbKeycode { data: self.table@[code as int] })
        } else {
            None
        }
    }

    /// The table for the usual keyboard: `USB_KBD_KEYCODE` reversed.
    pub open spec fn is_standard(&self) -> bool {
        forall|code: int|
            0 <= code < 256 ==> #[trigger] self.table@[code] == reverse_lookup(
                USB_KBD_KEYCODE@,
                code,
            )
    }

    /// Builds the table for the usual keyboard.
    pub fn standard() -> (map: KeycodeMap)
        ensures
            map.is_standard(),
    {
        let forward: [u8; 256] = USB_KBD_KEYCODE;
        let table = reverse_map(forward.as_slice());
        KeycodeMap { table }
    }

    /// Looks up an input key code.
    #[verifier::when_used_as_spec(spec_keycode)]
    pub fn keycode(&self, code: u16) -> (key: Option<UsbKeycode>)
        ensures
            key == self.spec_keycode(code),
    {
        if code < 256 {
            Some(UsbKeycode { data: self.table[code as usize] })
        } else {
            None
        }
    }
}

/// The code that `evdev` gives the up arrow key: the discriminant of
/// `Key::KEY_UP`, which its list of scan codes sets to 103.
#[verifier::external_body]
fn key_up_code() -> (code: u16)
    ensures
        code == 103,
{
    evdev::Key::KEY_UP as u16
}

/// The code that `evdev` gives the left arrow key: the discriminant of
/// `Key::KEY_LEFT`, which its list of scan codes sets to 105.
#[verifier::external_body]
fn key_left_code() -> (code: u16)
    ensures
        code == 105,
{
    evdev::Key::KEY_LEFT as u16
}

/// The code that `evdev` gives the right arrow key: the discriminant of
/// `Key::KEY_RIGHT`, which its list of scan codes sets to 106.
#[verifier::external_body]
fn key_right_code() -> (code: u16)
    ensures
        code == 106,
{
    evdev::Key::KEY_RIGHT as u16
}

/// The code that `evdev` gives the down arrow key: the discriminant of
/// `Key::KEY_DOWN`, which its list of scan codes sets to 108.
#[verifier::external_body]
fn key_down_code() -> (code: u16)
    ensures
        code == 108,
{
    evdev::Key::KEY_DOWN as u16
}

/// The input key codes of the four arrow keys: up, left, right, down.
pub open spec fn arrow_codes() -> Seq<u16> {
    seq![103u16, 105u16, 106u16, 108u16]
}

/// The keys that may form a chord unless told otherwise: the four arrow
/// keys, up, left, right and down, as `map` knows them.
pub fn arrow_keys(map: &KeycodeMap) -> (keys: Vec<UsbKeycode>)
    ensures
        keys@.len() == 4,
        forall|i: int| 0 <= i < 4 ==> map.spec_keycode(arrow_codes()[i]) == Some(#[trigger] keys@[i]),
{
    let codes: [u16; 4] = [key_up_code(), key_left_code(), key_right_code(), key_down_code()];
    let mut keys: Vec<UsbKeycode> = Vec::new();
    let mut i: usize = 0;
    while i < 4
        invariant
            i <= 4,
            codes@ == arrow_codes(),
            keys@.len() == i,
            forall|k: int| 0 <= k < i ==> map.spec_keycode(arrow_codes()[k]) == Some(#[trigger] keys@[k]),
        decreases 4 - i,
    {
        if let Some(key) = map.keycode(codes[i]) {
            keys.push(key);
        }
        i += 1;
    }
    keys
}

/// With the usual table the arrow keys come out as the usage codes 82, 80,
/// 79 and 81.
pub proof fn lemma_standard_arrows(map: KeycodeMap)
    requires
        map.is_standard(),
    ensures
        map.spec_keycode(103) == Some(UsbKeycode { data: 82 }),
        map.spec_keycode(105) == Some(UsbKeycode { data: 80 }),
        map.spec_keycode(106) == Some(UsbKeycode { data: 79 }),
        map.spec_keycode(108) == Some(UsbKeycode { data: 81 }),
{
    let t = USB_KBD_KEYCODE@;
    assert(forall|j: int| 82 < j < 256 ==> t[j] != 103);
    assert(forall|j: int| 80 < j < 256 ==> t[j] != 105);
    assert(forall|j: int| 79 < j < 256 ==> t[j] != 106);
    assert(forall|j: int| 81 < j < 256 ==> t[j] != 108);
    lemma_reverse_lookup(t, 103);
    lemma_reverse_lookup(t, 105);
    lemma_reverse_lookup(t, 106);
    lemma_reverse_lookup(t, 108);
}

} // verus!
