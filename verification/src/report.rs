use vstd::prelude::*;

use usbd_hid::descriptor::KeyboardReport;

verus! {

/// Declares postcard's error type so that it can be carried through verified code.
#[verifier::external_type_specification]
#[verifier::external_body]
pub struct ExPostcardError(postcard::Error);

/// Declares usbd-hid's keyboard report, which the USB side of the device sends.
#[verifier::external_type_specification]
#[verifier::external_body]
pub struct ExKeyboardReport(KeyboardReport);

/// A keyboard input report as it travels over the wire: the modifier
/// bitmap, a reserved byte, the LED bitmap and up to six pressed key codes.
#[derive(Debug, Eq, PartialEq)]
pub struct MyKeyboardReport {
    pub modifier: u8,
    pub reserved: u8,
    pub leds: u8,
    pub keycodes: [u8; 6],
}

/// Number of bytes a report occupies on the wire.
pub const REPORT_LEN: usize = 9;

/// Errors of the report codec.
#[derive(Debug, Eq, PartialEq)]
pub enum ReportError {
    /// The input ended before a whole report was read.
    DeserializeUnexpectedEnd,
    /// The output could not take the encoded report.
    SerializeBufferFull,
}

impl MyKeyboardReport {
    /// The wire form of a report: its four fields in declaration order, each
    /// byte as it is, the key code array without a length prefix.
    pub open spec fn encoding(self) -> Seq<u8> {
        seq![self.modifier, self.reserved, self.leds] + self.keycodes@
    }
}

/// `bytes` starts with the wire form of `r` (what follows is ignored).
pub open spec fn decodes_to(bytes: Seq<u8>, r: MyKeyboardReport) -> bool {
    &&& bytes.len() >= REPORT_LEN
    &&& r.encoding() == bytes.take(REPORT_LEN as int)
}

/// Calls `postcard::from_bytes` for the tuple that has the fields of a report.
/// Postcard reads each `u8` as one byte and a tuple or array as its elements
/// in order, with no length prefix, and ignores bytes that follow; it fails
/// (with `DeserializeUnexpectedEnd`) exactly when the input runs out. Which
/// error variant comes back is not stated.
#[verifier::external_body]
fn postcard_from_bytes(bytes: &[u8]) -> (res: Result<(u8, u8, u8, [u8; 6]), postcard::Error>)
    ensures
        res is Ok <==> bytes@.len() >= 9,
        res matches Ok(t) ==> seq![t.0, t.1, t.2] + t.3@ == bytes@.take(9),
{
    postcard::from_bytes(bytes)
}

/// Calls `postcard::to_allocvec` on the tuple of a report's fields. Into a
/// growable vector postcard writes each `u8` as one byte and a tuple or
/// array as its elements in order, and this flavour never reports an error.
#[verifier::external_body]
fn postcard_to_allocvec(modifier: u8, reserved: u8, leds: u8, keycodes: [u8; 6]) -> (res: Result<Vec<u8>, postcard::Error>)
    ensures
        res is Ok,
        res matches Ok(v) ==> v@ == seq![modifier, reserved, leds] + keycodes@,
{
    postcard::to_allocvec(&(modifier, reserved, leds, keycodes))
}

impl MyKeyboardReport {
    /// Reads a report from the front of `bytes`.
    pub fn new(bytes: &[u8]) -> (res: Result<Self, ReportError>)
        ensures
            res is Ok <==> bytes@.len() >= REPORT_LEN,
            res matches Ok(r) ==> decodes_to(bytes@, r),
            res matches Ok(r) ==> {
                &&& r.modifier == bytes@[0]
                &&& r.reserved == bytes@[1]
                &&& r.leds == bytes@[2]
                &&& r.keycodes@ == bytes@.subrange(3, 9)
            },
            res matches Err(e) ==> e == ReportError::DeserializeUnexpectedEnd,
    {
        match postcard_from_bytes(bytes) {
            Ok((modifier, reserved, leds, keycodes)) => {
                let r = MyKeyboardReport { modifier, reserved, leds, keycodes };
                proof {
                    lemma_encoding_fields(r);
                    assert(r.keycodes@ =~= bytes@.subrange(3, 9));
                }
                Ok(r)
            },
            Err(_) => Err(ReportError::DeserializeUnexpectedEnd),
        }
    }

    /// Writes the report in its wire form.
    pub fn to_vec(&self) -> (res: Result<Vec<u8>, ReportError>)
        ensures
            res is Ok,
            res matches Ok(v) ==> v@ == self.encoding(),
            res matches Ok(v) ==> v@ == seq![self.modifier, self.reserved, self.leds] + self.keycodes@,
    {
        match postcard_to_allocvec(self.modifier, self.reserved, self.leds, self.keycodes) {
            Ok(v) => Ok(v),
            Err(_) => Err(ReportError::SerializeBufferFull),
        }
    }
}

/// usbd-hid's `KeyboardReport` whose four public fields hold these values.
pub uninterp spec fn usb_keyboard_report(modifier: u8, reserved: u8, leds: u8, keycodes: [u8; 6]) -> KeyboardReport;

impl MyKeyboardReport {
    /// Copies the four fields of a usbd-hid `KeyboardReport` into a report
    /// of this crate: the input is the `KeyboardReport` with the result's
    /// fields, and with no other fields (a struct is equal only to itself).
    #[verifier::external_body]
    pub fn from(item: KeyboardReport) -> (r: Self)
        ensures
            usb_keyboard_report(r.modifier, r.reserved, r.leds, r.keycodes) == item,
            forall|m: u8, s: u8, l: u8, k: [u8; 6]|
                #[trigger] usb_keyboard_report(m, s, l, k) == item ==> m == r.modifier && s == r.reserved
                    && l == r.leds && k == r.keycodes,
    {
        MyKeyboardReport {
            modifier: item.modifier,
            reserved: item.reserved,
            leds: item.leds,
            keycodes: item.keycodes,
        }
    }

    /// Builds the usbd-hid `KeyboardReport` with the same four fields: the
    /// result has these fields, and no other fields.
    #[verifier::external_body]
    pub fn to_keyboard_report(&self) -> (res: KeyboardReport)
        ensures
            res == usb_keyboard_report(self.modifier, self.reserved, self.leds, self.keycodes),
            forall|m: u8, s: u8, l: u8, k: [u8; 6]|
                #[trigger] usb_keyboard_report(m, s, l, k) == res ==> m == self.modifier && s
                    == self.reserved && l == self.leds && k == self.keycodes,
    {
        KeyboardReport {
            modifier: self.modifier,
            reserved: self.reserved,
            leds: self.leds,
            keycodes: self.keycodes,
        }
    }
}

/// Converting a report to usbd-hid's report and back gives the same report.
/// `item` and `back` are what `to_keyboard_report` and then `from` return,
/// as their contracts describe them.
pub proof fn lemma_keyboard_report_roundtrip(r: MyKeyboardReport, item: KeyboardReport, back: MyKeyboardReport)
    requires
        item == usb_keyboard_report(r.modifier, r.reserved, r.leds, r.keycodes),
        forall|m: u8, s: u8, l: u8, k: [u8; 6]|
            #[trigger] usb_keyboard_report(m, s, l, k) == item ==> m == r.modifier && s == r.reserved
                && l == r.leds && k == r.keycodes,
        usb_keyboard_report(back.modifier, back.reserved, back.leds, back.keycodes) == item,
    ensures
        back == r,
{
    assert(usb_keyboard_report(back.modifier, back.reserved, back.leds, back.keycodes) == item);
}

/// The wire form is the modifier byte, the reserved byte, the LED byte and
/// then the six key codes in slot order.
pub proof fn lemma_encoding_fields(r: MyKeyboardReport)
    ensures
        r.encoding().len() == 9,
        r.encoding()[0] == r.modifier,
        r.encoding()[1] == r.reserved,
        r.encoding()[2] == r.leds,
        forall|i: int| 0 <= i < 6 ==> #[trigger] r.encoding()[3 + i] == r.keycodes@[i],
        r.encoding().subrange(3, 9) == r.keycodes@,
{
    broadcast use vstd::array::group_array_axioms;
    assert(r.encoding().subrange(3, 9) =~= r.keycodes@);
}

/// Reading a report from bytes puts byte 0 in the modifier, byte 1 in the
/// reserved field, byte 2 in the LEDs and bytes 3 to 8 in the key slots, in
/// order, whatever the bytes are.
pub proof fn lemma_decoded_fields(bytes: Seq<u8>, r: MyKeyboardReport)
    requires
        decodes_to(bytes, r),
    ensures
        r.modifier == bytes[0],
        r.reserved == bytes[1],
        r.leds == bytes[2],
        r.keycodes@ == bytes.subrange(3, 9),
{
    lemma_encoding_fields(r);
    assert(bytes.take(9).subrange(3, 9) =~= bytes.subrange(3, 9));
}

/// Every report takes exactly nine bytes on the wire.
pub proof fn lemma_encoding_len(r: MyKeyboardReport)
    ensures
        r.encoding().len() == REPORT_LEN,
{
}

/// Two reports with the same wire form are the same report.
pub proof fn lemma_encoding_injective(a: MyKeyboardReport, b: MyKeyboardReport)
    requires
        a.encoding() == b.encoding(),
    ensures
        a == b,
{
    broadcast use vstd::array::group_array_axioms;
    assert(a.modifier == a.encoding()[0] && b.modifier == b.encoding()[0]);
    assert(a.reserved == a.encoding()[1] && b.reserved == b.encoding()[1]);
    assert(a.leds == a.encoding()[2] && b.leds == b.encoding()[2]);
    assert forall|i: int| 0 <= i < 6 implies a.keycodes[i] == b.keycodes[i] by {
        assert(a.keycodes@[i] == a.encoding()[i + 3]);
        assert(b.keycodes@[i] == b.encoding()[i + 3]);
    }
    assert(a.keycodes =~= b.keycodes);
}

/// Reading back what was written gives the report that was written, and
/// nothing else.
pub proof fn lemma_roundtrip(r: MyKeyboardReport, s: MyKeyboardReport)
    ensures
        decodes_to(r.encoding(), r),
        decodes_to(r.encoding(), s) ==> s == r,
{
    assert(r.encoding().take(REPORT_LEN as int) =~= r.encoding());
    if decodes_to(r.encoding(), s) {
        lemma_encoding_injective(r, s);
    }
}

/// A byte string decodes to at most one report.
pub proof fn lemma_decode_unique(bytes: Seq<u8>, a: MyKeyboardReport, b: MyKeyboardReport)
    requires
        decodes_to(bytes, a),
        decodes_to(bytes, b),
    ensures
        a == b,
{
    lemma_encoding_injective(a, b);
}

/// Bytes that follow a whole report do not change what is read.
pub proof fn lemma_decode_ignores_tail(bytes: Seq<u8>, tail: Seq<u8>, r: MyKeyboardReport)
    requires
        decodes_to(bytes, r),
    ensures
        decodes_to(bytes + tail, r),
{
    assert((bytes + tail).take(REPORT_LEN as int) =~= bytes.take(REPORT_LEN as int));
}

} // verus!
