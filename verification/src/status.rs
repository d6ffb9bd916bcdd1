//! Decoder for the status notifications of the printer.
//!
//! A status reply is a line of text such as
//! `HV=V1.0A,SV=V1.01,VOLT=4000mv,DPI=384,`. The battery reading is the first
//! place where `VOLT=`, one or more ASCII digits and `mv` follow each other;
//! the digits may be any number of millivolts.

use vstd::prelude::*;
use vstd::string::*;
use vstd::utf8::{decode_utf8, valid_utf8};
use crate::text::{chars_of, strip_trailing, trim, trimmed_bounds};
use crate::types::{emit, log_event, AppEvent, EventView, BATT_MAX_MV, BATT_MIN_MV};

verus! {

/// Whether `b` is an ASCII digit.
pub open spec fn is_digit(b: u8) -> bool {
    0x30 <= b <= 0x39
}

/// Whether the bytes of `VOLT=` stand at `at`.
pub open spec fn volt_tag_at(data: Seq<u8>, at: int) -> bool {
    &&& 0 <= at
    &&& at + 5 <= data.len()
    &&& data[at] == 0x56
    &&& data[at + 1] == 0x4F
    &&& data[at + 2] == 0x4C
    &&& data[at + 3] == 0x54
    &&& data[at + 4] == 0x3D
}

/// Whether a reading starts at `at` and its digits end before `end`, where
/// `mv` stands.
pub open spec fn reading_at(data: Seq<u8>, at: int, end: int) -> bool {
    &&& volt_tag_at(data, at)
    &&& at + 5 < end
    &&& end + 2 <= data.len()
    &&& forall|k: int| at + 5 <= k < end ==> #[trigger] is_digit(data[k])
    &&& data[end] == 0x6D
    &&& data[end + 1] == 0x76
}

/// Whether a reading starts at `at`.
pub open spec fn has_reading_at(data: Seq<u8>, at: int) -> bool {
    exists|end: int| reading_at(data, at, end)
}

/// Whether `data` holds a reading.
pub open spec fn has_reading(data: Seq<u8>) -> bool {
    exists|at: int| has_reading_at(data, at)
}

/// Where the leftmost reading of `data` starts.
pub open spec fn first_reading_start(data: Seq<u8>) -> int {
    choose|at: int|
        has_reading_at(data, at) && forall|before: int|
            before < at ==> !has_reading_at(data, before)
}

/// Where the digits of the reading that starts at `at` end.
pub open spec fn reading_end(data: Seq<u8>, at: int) -> int {
    choose|end: int| reading_at(data, at, end)
}

/// The number that a run of ASCII digits denotes.
pub open spec fn digits_value(digits: Seq<u8>) -> nat
    decreases digits.len(),
{
    if digits.len() == 0 {
        0
    } else {
        digits_value(digits.drop_last()) * 10 + (digits.last() - 0x30) as nat
    }
}

/// Charge, in percent, of a battery at `mv` millivolts: linear between the
/// empty and the full voltage, rounded down, and clamped to `0..=100`.
pub open spec fn battery_percent(mv: nat) -> nat {
    if mv <= BATT_MIN_MV {
        0
    } else if mv >= BATT_MAX_MV {
        100
    } else {
        ((mv - BATT_MIN_MV) * 100 / (BATT_MAX_MV - BATT_MIN_MV) as int) as nat
    }
}

/// The battery level that `data` reports: that of its leftmost reading,
/// however large its number.
#[verifier::opaque]
pub open spec fn battery_reading(data: Seq<u8>) -> Option<u8> {
    if has_reading(data) {
        let at = first_reading_start(data);
        let mv = digits_value(data.subrange(at + 5, reading_end(data, at)));
        Some(battery_percent(mv) as u8)
    } else {
        None
    }
}

/// A reading that starts at `at` ends where its run of digits ends.
proof fn lemma_reading_end_unique(data: Seq<u8>, at: int, end: int, other: int)
    requires
        reading_at(data, at, end),
        reading_at(data, at, other),
    ensures
        end == other,
{
    if end < other {
        assert(is_digit(data[end]));
    } else if other < end {
        assert(is_digit(data[other]));
    }
}

proof fn lemma_digits_value_push(digits: Seq<u8>, d: u8)
    ensures
        digits_value(digits.push(d)) == digits_value(digits) * 10 + (d - 0x30) as nat,
{
    assert(digits.push(d).drop_last() == digits);
}

proof fn lemma_digits_value_grows(digits: Seq<u8>, upto: int)
    requires
        0 <= upto <= digits.len(),
        forall|k: int| 0 <= k < digits.len() ==> #[trigger] is_digit(digits[k]),
    ensures
        digits_value(digits.take(upto)) <= digits_value(digits),
    decreases digits.len() - upto,
{
    if upto == digits.len() {
        assert(digits.take(upto) == digits);
    } else {
        let shorter = digits.drop_last();
        assert(is_digit(digits[digits.len() - 1]));
        assert(shorter.take(upto) == digits.take(upto));
        assert forall|k: int| 0 <= k < shorter.len() implies #[trigger] is_digit(shorter[k]) by {
            assert(shorter[k] == digits[k]);
        }
        lemma_digits_value_grows(shorter, upto);
    }
}

/// The charge, in percent, of a battery at `mv` millivolts.
pub fn battery_percent_of(mv: u32) -> (percent: u8)
    ensures
        percent == battery_percent(mv as nat),
        percent <= 100,
{
    if mv <= BATT_MIN_MV {
        0
    } else if mv >= BATT_MAX_MV {
        100
    } else {
        let above: u32 = mv - BATT_MIN_MV;
        let span: u32 = BATT_MAX_MV - BATT_MIN_MV;
        assert(span == 900 && above < 900);
        let scaled: u32 = above * 100 / span;
        assert(scaled < 100);
        #[verifier::truncate]
        let percent = scaled as u8;
        percent
    }
}

/// Where the digits of a reading at `at` end, if a reading starts there.
fn find_reading_end(data: &[u8], at: usize) -> (r: Option<usize>)
    requires
        at < data.len(),
    ensures
        match r {
            Some(end) => reading_at(data@, at as int, end as int),
            None => !has_reading_at(data@, at as int),
        },
{
    let n = data.len();
    if n - at < 5 {
        return None;
    }
    if !(data[at] == 0x56 && data[at + 1] == 0x4F && data[at + 2] == 0x4C && data[at + 3] == 0x54
        && data[at + 4] == 0x3D) {
        return None;
    }
    let first = at + 5;
    let mut end = first;
    while end < n && 0x30 <= data[end] && data[end] <= 0x39
        invariant
            first <= end <= n,
            n == data.len(),
            forall|k: int| first <= k < end ==> #[trigger] is_digit(data@[k]),
        decreases n - end,
    {
        end += 1;
    }
    if end > first && n - end >= 2 && data[end] == 0x6D && data[end + 1] == 0x76 {
        Some(end)
    } else {
        proof {
            assert forall|other: int| !reading_at(data@, at as int, other) by {
                if reading_at(data@, at as int, other) {
                    if other < end {
                        assert(is_digit(data@[other]));
                    } else if other > end {
                        assert(is_digit(data@[end as int]));
                    }
                }
            }
        }
        None
    }
}

/// The number that the digits `data[from..to]` denote, or the largest
/// number of 32 bits if it is larger.
fn read_number(data: &[u8], from: usize, to: usize) -> (value: u32)
    requires
        from <= to <= data.len(),
        forall|k: int| from <= k < to ==> #[trigger] is_digit(data@[k]),
    ensures
        value == if digits_value(data@.subrange(from as int, to as int)) <= u32::MAX {
            digits_value(data@.subrange(from as int, to as int))
        } else {
            u32::MAX as nat
        },
{
    let ghost digits = data@.subrange(from as int, to as int);
    let mut value: u64 = 0;
    let mut k = from;
    proof {
        assert(digits.take(0) =~= Seq::<u8>::empty());
    }
    while k < to
        invariant
            from <= k <= to <= data.len(),
            digits == data@.subrange(from as int, to as int),
            forall|j: int| 0 <= j < digits.len() ==> #[trigger] is_digit(digits[j]),
            value == digits_value(digits.take(k - from)),
            value <= u32::MAX,
        decreases to - k,
    {
        proof {
            assert(digits[k - from] == data@[k as int]);
            assert(is_digit(digits[k - from]));
        }
        let digit: u64 = (data[k] - 0x30) as u64;
        proof {
            assert(digits.take(k - from + 1) =~= digits.take(k - from).push(digits[k - from]));
            lemma_digits_value_push(digits.take(k - from), digits[k - from]);
        }
        let next: u64 = value * 10 + digit;
        if next > u32::MAX as u64 {
            proof {
                lemma_digits_value_grows(digits, k - from + 1);
            }
            return u32::MAX;
        }
        value = next;
        k += 1;
    }
    proof {
        assert(digits.take(to - from) =~= digits);
    }
    #[verifier::truncate]
    let result = value as u32;
    result
}

/// The battery level, in percent, that a status notification reports.
///
/// `Some` exactly when `data` holds a reading; the leftmost reading counts,
/// and a number of any size is taken: from the full voltage on the level is
/// 100.
pub fn parse_battery(data: &[u8]) -> (r: Option<u8>)
    ensures
        r == battery_reading(data@),
        r matches Some(percent) ==> percent <= 100,
{
    let n = data.len();
    let mut at: usize = 0;
    while at < n
        invariant
            at <= n,
            n == data.len(),
            forall|before: int| before < at ==> !has_reading_at(data@, before),
        decreases n - at,
    {
        match find_reading_end(data, at) {
            Some(end) => {
                proof {
                    reveal(battery_reading);
                    assert(has_reading_at(data@, at as int));
                    assert(has_reading(data@));
                    let first = first_reading_start(data@);
                    assert(has_reading_at(data@, first) && forall|before: int|
                        before < first ==> !has_reading_at(data@, before));
                    assert(first == at);
                    lemma_reading_end_unique(
                        data@,
                        at as int,
                        end as int,
                        reading_end(data@, at as int),
                    );
                }
                let mv = read_number(data, at + 5, end);
                proof {
                    // A number too large for 32 bits is far above the full
                    // voltage, as is the largest number of 32 bits.
                    assert(BATT_MAX_MV <= u32::MAX);
                }
                return Some(battery_percent_of(mv));
            },
            None => {},
        }
        at += 1;
    }
    proof {
        reveal(battery_reading);
        assert forall|any: int| !has_reading_at(data@, any) by {
            if any >= n {
                assert forall|end: int| !reading_at(data@, any, end) by {}
            }
        }
    }
    None
}

/// The battery level is a percentage and grows with the voltage.
pub proof fn lemma_battery_percent_grows(low: nat, high: nat)
    requires
        low <= high,
    ensures
        battery_percent(low) <= battery_percent(high) <= 100,
{
    assert(BATT_MAX_MV - BATT_MIN_MV == 900);
    if BATT_MIN_MV < low && high < BATT_MAX_MV {
        assert((low - 3300) * 100 / 900 <= (high - 3300) * 100 / 900) by (nonlinear_arith)
            requires
                3300 < low <= high,
        ;
    }
    if BATT_MIN_MV < high < BATT_MAX_MV {
        assert((high - 3300) * 100 / 900 <= 100) by (nonlinear_arith)
            requires
                3300 < high < 4200,
        ;
    }
    if BATT_MIN_MV < low < BATT_MAX_MV {
        assert((low - 3300) * 100 / 900 <= 100) by (nonlinear_arith)
            requires
                3300 < low < 4200,
        ;
    }
}

/// A reading that no reading precedes decides the battery level.
pub proof fn lemma_leftmost_reading_decides(data: Seq<u8>, at: int, end: int)
    requires
        reading_at(data, at, end),
        forall|before: int| before < at ==> !has_reading_at(data, before),
    ensures
        battery_reading(data) == Some(
            battery_percent(digits_value(data.subrange(at + 5, end))) as u8,
        ),
{
    reveal(battery_reading);
    assert(has_reading_at(data, at));
    assert(has_reading(data));
    let first = first_reading_start(data);
    assert(has_reading_at(data, first) && forall|before: int|
        before < first ==> !has_reading_at(data, before));
    assert(first == at);
    lemma_reading_end_unique(data, at, end, reading_end(data, at));
}

/// A notification without a reading reports no battery level.
pub proof fn lemma_no_reading_no_level(data: Seq<u8>)
    requires
        !has_reading(data),
    ensures
        battery_reading(data) is None,
{
    reveal(battery_reading);
}

/// A battery level is reported only where there is a reading, and is a
/// percentage.
pub proof fn lemma_level_is_percentage(data: Seq<u8>)
    ensures
        battery_reading(data) matches Some(percent) ==> percent <= 100 && has_reading(data),
{
    reveal(battery_reading);
    if has_reading(data) {
        let at = first_reading_start(data);
        let mv = digits_value(data.subrange(at + 5, reading_end(data, at)));
        lemma_battery_percent_grows(mv, mv);
    }
}

/// The text that `String::from_utf8_lossy` makes of `bytes`.
pub uninterp spec fn utf8_lossy(bytes: Seq<u8>) -> Seq<char>;

/// Decodes `data` with `String::from_utf8_lossy` of std. Trusted: the result
/// is a function of the bytes and, as std documents, the decoded text itself
/// where the bytes are valid UTF-8.
#[verifier::external_body]
fn decode_lossy(data: &[u8]) -> (text: String)
    ensures
        text@ == utf8_lossy(data@),
        valid_utf8(data@) ==> text@ == decode_utf8(data@),
{
    String::from_utf8_lossy(data).into_owned()
}

/// The status line shown for a notification: its text without surrounding
/// whitespace and then without trailing commas.
pub open spec fn status_text(data: Seq<u8>) -> Seq<char> {
    strip_trailing(trim(utf8_lossy(data)), ',')
}

/// The events that a notification gives rise to: always the status line, and
/// the battery level where the notification reports one.
pub open spec fn notification_events(data: Seq<u8>) -> Seq<EventView> {
    let line = EventView::Log("Printer status: "@ + status_text(data));
    match battery_reading(data) {
        Some(percent) => seq![line, EventView::BatteryLevel(percent)],
        None => seq![line],
    }
}

pub fn decode_notification(data: &[u8]) -> (events: Vec<AppEvent>)
    ensures
        crate::types::event_views(events@) == notification_events(data@),
{
    let text = decode_lossy(data);
    let chars = chars_of(text.as_str());
    let (from, to) = trimmed_bounds(&chars, ',');
    let line = text.as_str().substring_char(from, to);
    let mut events: Vec<AppEvent> = Vec::new();
    assert(crate::types::event_views(events@) =~= Seq::<EventView>::empty());
    emit(&mut events, log_event("Printer status: ", line));
    match parse_battery(data) {
        Some(percent) => {
            emit(&mut events, AppEvent::BatteryLevel(percent));
        },
        None => {},
    }
    events
}

} // verus!
