use shared::framing::ReportAssembler;
use shared::report::MyKeyboardReport;

#[test]
fn nine_bytes_make_one_report() {
    let mut a = ReportAssembler::new();
    let frame = [1u8, 0, 0, 4, 0, 0, 0, 0, 0];
    for b in &frame[..8] {
        assert_eq!(a.push_byte(*b), None);
    }
    assert_eq!(
        a.push_byte(frame[8]),
        Some(MyKeyboardReport {
            modifier: 1,
            reserved: 0,
            leds: 0,
            keycodes: [4, 0, 0, 0, 0, 0],
        })
    );
}

#[test]
fn reports_come_out_in_order() {
    let first = MyKeyboardReport { modifier: 0, reserved: 0, leds: 0, keycodes: [4, 0, 0, 0, 0, 0] };
    let second = MyKeyboardReport { modifier: 2, reserved: 0, leds: 3, keycodes: [5, 6, 0, 0, 0, 0] };
    let mut stream = first.to_vec().unwrap();
    stream.extend(second.to_vec().unwrap());
    stream.extend_from_slice(&[9, 9]);
    let mut a = ReportAssembler::new();
    let mut got = Vec::new();
    for b in stream {
        if let Some(r) = a.push_byte(b) {
            got.push(r);
        }
    }
    assert_eq!(got, vec![first, second]);
}
