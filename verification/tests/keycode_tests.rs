use keyrelay::keycode::{arrow_keys, reverse_map, KeycodeMap, UsbKeycode, USB_KBD_KEYCODE};

#[test]
fn modifier_range_is_224_to_231() {
    assert!(!UsbKeycode { data: 223 }.is_modifier());
    assert!(UsbKeycode { data: 224 }.is_modifier());
    assert!(UsbKeycode { data: 227 }.is_modifier());
    assert!(UsbKeycode { data: 231 }.is_modifier());
    assert!(!UsbKeycode { data: 232 }.is_modifier());
    assert!(!UsbKeycode { data: 0 }.is_modifier());
    assert!(!UsbKeycode { data: 4 }.is_modifier());
    assert!(!UsbKeycode { data: 255 }.is_modifier());
}

#[test]
fn null_key_is_code_zero() {
    assert_eq!(UsbKeycode::null(), UsbKeycode { data: 0 });
}

#[test]
fn reverse_map_takes_codes_to_positions() {
    let map = reverse_map(&[7, 9, 200]);
    assert_eq!(map[7], 0);
    assert_eq!(map[9], 1);
    assert_eq!(map[200], 2);
    assert_eq!(map[0], 0);
    assert_eq!(map[8], 0);
    assert_eq!(map[255], 0);
}

#[test]
fn reverse_map_of_nothing_is_all_zero() {
    let map = reverse_map(&[]);
    assert_eq!(map, [0u8; 256]);
}

#[test]
fn reverse_map_keeps_the_last_position_of_a_code() {
    let map = reverse_map(&[5, 6, 5, 6, 6]);
    assert_eq!(map[5], 2);
    assert_eq!(map[6], 4);
}

#[test]
fn reverse_map_wraps_positions_beyond_a_byte() {
    let mut table = vec![1u8; 256];
    table.push(9);
    table.push(1);
    let map = reverse_map(&table);
    assert_eq!(map[9], 0);
    assert_eq!(map[1], 1);
}

#[test]
fn standard_map_knows_common_keys() {
    let map = KeycodeMap::standard();
    assert_eq!(map.keycode(30), Some(UsbKeycode { data: 4 }));
    assert_eq!(map.keycode(1), Some(UsbKeycode { data: 41 }));
    assert_eq!(map.keycode(57), Some(UsbKeycode { data: 44 }));
    assert_eq!(map.keycode(29), Some(UsbKeycode { data: 224 }));
    assert_eq!(map.keycode(42), Some(UsbKeycode { data: 225 }));
    assert_eq!(map.keycode(56), Some(UsbKeycode { data: 226 }));
    assert_eq!(map.keycode(125), Some(UsbKeycode { data: 227 }));
    assert_eq!(map.keycode(97), Some(UsbKeycode { data: 228 }));
    assert_eq!(map.keycode(54), Some(UsbKeycode { data: 229 }));
    assert_eq!(map.keycode(100), Some(UsbKeycode { data: 230 }));
    assert_eq!(map.keycode(126), Some(UsbKeycode { data: 231 }));
}

#[test]
fn standard_map_is_the_usb_table_reversed() {
    let map = KeycodeMap::standard();
    assert_eq!(map.table, reverse_map(&USB_KBD_KEYCODE));
    assert_eq!(USB_KBD_KEYCODE[82], 103);
    assert_eq!(USB_KBD_KEYCODE[4], 30);
}

#[test]
fn standard_map_resolves_duplicates_to_the_last_position() {
    let map = KeycodeMap::standard();
    assert_eq!(map.keycode(43), Some(UsbKeycode { data: 50 }));
    assert_eq!(map.keycode(113), Some(UsbKeycode { data: 239 }));
    assert_eq!(map.keycode(114), Some(UsbKeycode { data: 238 }));
    assert_eq!(map.keycode(115), Some(UsbKeycode { data: 237 }));
    assert_eq!(map.keycode(128), Some(UsbKeycode { data: 243 }));
    assert_eq!(map.keycode(136), Some(UsbKeycode { data: 244 }));
    assert_eq!(map.keycode(0), Some(UsbKeycode { data: 255 }));
}

#[test]
fn standard_map_gives_unknown_codes_the_null_key() {
    let map = KeycodeMap::standard();
    assert_eq!(map.keycode(200), Some(UsbKeycode { data: 0 }));
    assert_eq!(map.keycode(255), Some(UsbKeycode { data: 0 }));
}

#[test]
fn codes_beyond_the_table_have_no_key() {
    let map = KeycodeMap::standard();
    assert_eq!(map.keycode(256), None);
    assert_eq!(map.keycode(0x110), None);
    assert_eq!(map.keycode(u16::MAX), None);
}

#[test]
fn arrow_keys_are_up_left_right_down() {
    let map = KeycodeMap::standard();
    let keys = arrow_keys(&map);
    assert_eq!(
        keys,
        vec![
            UsbKeycode { data: 82 },
            UsbKeycode { data: 80 },
            UsbKeycode { data: 79 },
            UsbKeycode { data: 81 },
        ]
    );
}

#[test]
fn arrow_keys_follow_the_table_they_are_given() {
    let mut table = [0u8; 256];
    table[103] = 1;
    table[105] = 2;
    table[106] = 3;
    table[108] = 4;
    let keys = arrow_keys(&KeycodeMap { table });
    assert_eq!(
        keys,
        vec![
            UsbKeycode { data: 1 },
            UsbKeycode { data: 2 },
            UsbKeycode { data: 3 },
            UsbKeycode { data: 4 },
        ]
    );
}
