use shared::report::{MyKeyboardReport, ReportError, REPORT_LEN};
use usbd_hid::descriptor::KeyboardReport;

fn sample() -> MyKeyboardReport {
    MyKeyboardReport {
        modifier: 0x02,
        reserved: 0,
        leds: 0x01,
        keycodes: [4, 5, 6, 0, 0, 0],
    }
}

#[test]
fn to_vec_writes_fields_in_order() {
    let bytes = sample().to_vec().unwrap();
    assert_eq!(bytes, vec![0x02, 0, 0x01, 4, 5, 6, 0, 0, 0]);
    assert_eq!(bytes.len(), REPORT_LEN);
}

#[test]
fn new_reads_fields_in_order() {
    let r = MyKeyboardReport::new(&[1, 2, 3, 10, 11, 12, 13, 14, 15]).unwrap();
    assert_eq!(r.modifier, 1);
    assert_eq!(r.reserved, 2);
    assert_eq!(r.leds, 3);
    assert_eq!(r.keycodes, [10, 11, 12, 13, 14, 15]);
}

#[test]
fn new_of_to_vec_is_identity() {
    let bytes = sample().to_vec().unwrap();
    assert_eq!(MyKeyboardReport::new(&bytes), Ok(sample()));
}

#[test]
fn new_ignores_trailing_bytes() {
    let mut bytes = sample().to_vec().unwrap();
    bytes.extend_from_slice(&[0xff, 0xee]);
    assert_eq!(MyKeyboardReport::new(&bytes), Ok(sample()));
}

#[test]
fn new_rejects_short_input() {
    for len in 0..REPORT_LEN {
        let bytes = vec![7u8; len];
        assert_eq!(
            MyKeyboardReport::new(&bytes),
            Err(ReportError::DeserializeUnexpectedEnd)
        );
    }
}

#[test]
fn keyboard_report_conversions_keep_fields() {
    let r = MyKeyboardReport::from(KeyboardReport {
        modifier: 0,
        reserved: 0,
        leds: 0,
        keycodes: [4, 0, 0, 0, 0, 0],
    });
    assert_eq!(
        r,
        MyKeyboardReport {
            modifier: 0,
            reserved: 0,
            leds: 0,
            keycodes: [4, 0, 0, 0, 0, 0],
        }
    );
    let k = sample().to_keyboard_report();
    assert_eq!(k.modifier, 0x02);
    assert_eq!(k.reserved, 0);
    assert_eq!(k.leds, 0x01);
    assert_eq!(k.keycodes, [4, 5, 6, 0, 0, 0]);
    assert_eq!(MyKeyboardReport::from(k), sample());
}

#[test]
fn keyboard_report_roundtrip_keeps_every_field() {
    let r = MyKeyboardReport { modifier: 0xff, reserved: 7, leds: 0x1f, keycodes: [1, 2, 3, 4, 5, 6] };
    let back = MyKeyboardReport::from(r.to_keyboard_report());
    assert_eq!(back, r);
}
