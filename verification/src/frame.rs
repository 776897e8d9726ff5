//! Reads the position out of one input report of the sensor.

use vstd::prelude::*;

verus! {

/// Place of the position's low byte in a report.
pub open spec fn position_offset(has_report_id: bool) -> int {
    if has_report_id {
        1
    } else {
        0
    }
}

/// The position held by a report: two bytes, low byte first.
pub open spec fn position_of(frame: Seq<u8>, has_report_id: bool) -> int
    recommends
        frame.len() >= position_offset(has_report_id) + 2,
{
    frame[position_offset(has_report_id)] as int + 256 * (frame[position_offset(has_report_id)
        + 1] as int)
}

/// The position in a report, or nothing for a report too short to hold one.
/// With `has_report_id` the report starts with an identifier byte that is
/// skipped.
pub fn decode_frame(frame: &[u8], has_report_id: bool) -> (pos: Option<i32>)
    ensures
        pos is Some <==> frame@.len() >= position_offset(has_report_id) + 2,
        pos matches Some(p) ==> p == position_of(frame@, has_report_id) && 0 <= p <= 0xffff,
{
    let offset: usize = if has_report_id {
        1
    } else {
        0
    };
    if frame.len() < offset + 2 {
        return None;
    }
    let low: i32 = frame[offset] as i32;
    let high: i32 = frame[offset + 1] as i32;
    Some(low + 256 * high)
}

} // verus!
