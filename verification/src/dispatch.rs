//! Routing of events by their name.
//!
//! An event is known by its full name. Its fields are read by their
//! names; an event that lacks a field it must have, or has it with
//! another type, is malformed: it is skipped and counted as dropped.

use crate::engine::Step;
use crate::events::text_view;
use crate::profile_values::timestamp_at;
use crate::sampling::count_dropped;
use crate::sink::{op_views, MarkerTiming, SinkOp, SinkOpView};
use crate::state::{next_count, Counters, EngineView};
use crate::text::{
    chars_of, find_char, first_at_or_after, has_prefix, matches_at, same_text, string_of,
};
use crate::timestamp_converter::TimestampConverter;
use vstd::prelude::*;

verus! {

/// Why an event was not handled.
#[derive(Debug, Clone, Copy, PartialEq, Eq, Structural)]
pub enum EventError {
    /// The event lacks a field that it must have. It was skipped and
    /// counted as dropped; the trace can be read on.
    Malformed,
    /// The event carries times of the performance counter, but the trace
    /// header did not declare that counter as the clock of the events, so
    /// the two kinds of times cannot be put on one scale. The trace cannot
    /// be used.
    InconsistentTimestampFormats,
}

/// What an event is, by its name.
#[derive(Debug, Clone, Copy, PartialEq, Eq, Structural)]
pub enum EventKind {
    Header,
    CollectionStart,
    ThreadSetName,
    ThreadStart,
    ThreadEnd,
    ProcessStart,
    StackWalk,
    SampleProf,
    DemandZeroFault,
    VirtualFree,
    VirtualAlloc,
    ImageId,
    DbgId,
    ImageLoad,
    VSync,
    CSwitch,
    ReadyThread,
    MethodLoad,
    SourceLoad,
    IntervalBegin,
    IntervalEnd,
    Firefox,
    Chrome,
    Other,
}

/// The name of the event that begins the interval which the event of
/// kind `IntervalEnd` ends.
pub open spec fn interval_begin_name() -> Seq<char> {
    "Microsoft-Windows-Direct3D11/ID3D11VideoContext_SubmitDecoderBuffers/win:Start"@
}

/// The prefix of the names of the events of Firefox.
pub open spec fn firefox_prefix() -> Seq<char> {
    "Mozilla.FirefoxTraceLogger/"@
}

/// The prefix of the names of the events of Chrome.
pub open spec fn chrome_prefix() -> Seq<char> {
    "Google.Chrome/"@
}

/// The name of the marker of an application event: what stands in the
/// event's name between the provider's prefix and a closing `/`.
pub open spec fn marker_name(name: Seq<char>, prefix: Seq<char>) -> Option<Seq<char>> {
    if has_prefix(name, prefix) && name.len() > prefix.len() && name.last() == '/' {
        Some(name.subrange(prefix.len() as int, name.len() - 1))
    } else {
        None
    }
}

/// What an event of the given name is.
pub open spec fn event_kind(name: Seq<char>) -> EventKind {
    if name == "MSNT_SystemTrace/EventTrace/Header"@ {
        EventKind::Header
    } else if name == "MSNT_SystemTrace/PerfInfo/CollectionStart"@ {
        EventKind::CollectionStart
    } else if name == "MSNT_SystemTrace/Thread/SetName"@ {
        EventKind::ThreadSetName
    } else if name == "MSNT_SystemTrace/Thread/Start"@ || name
        == "MSNT_SystemTrace/Thread/DCStart"@ {
        EventKind::ThreadStart
    } else if name == "MSNT_SystemTrace/Thread/End"@ || name == "MSNT_SystemTrace/Thread/DCEnd"@ {
        EventKind::ThreadEnd
    } else if name == "MSNT_SystemTrace/Process/Start"@ || name
        == "MSNT_SystemTrace/Process/DCStart"@ {
        EventKind::ProcessStart
    } else if name == "MSNT_SystemTrace/StackWalk/Stack"@ {
        EventKind::StackWalk
    } else if name == "MSNT_SystemTrace/PerfInfo/SampleProf"@ {
        EventKind::SampleProf
    } else if name == "MSNT_SystemTrace/PageFault/DemandZeroFault"@ {
        EventKind::DemandZeroFault
    } else if name == "MSNT_SystemTrace/PageFault/VirtualFree"@ {
        EventKind::VirtualFree
    } else if name == "MSNT_SystemTrace/PageFault/VirtualAlloc"@ {
        EventKind::VirtualAlloc
    } else if name == "KernelTraceControl/ImageID/"@ {
        EventKind::ImageId
    } else if name == "KernelTraceControl/ImageID/DbgID_RSDS"@ {
        EventKind::DbgId
    } else if name == "MSNT_SystemTrace/Image/Load"@ || name == "MSNT_SystemTrace/Image/DCStart"@ {
        EventKind::ImageLoad
    } else if name == "Microsoft-Windows-DxgKrnl/VSyncDPC/Info "@ {
        EventKind::VSync
    } else if name == "MSNT_SystemTrace/Thread/CSwitch"@ {
        EventKind::CSwitch
    } else if name == "MSNT_SystemTrace/Thread/ReadyThread"@ {
        EventKind::ReadyThread
    } else if name == "V8.js/MethodLoad/"@ || name
        == "Microsoft-JScript/MethodRuntime/MethodDCStart"@ || name
        == "Microsoft-JScript/MethodRuntime/MethodLoad"@ {
        EventKind::MethodLoad
    } else if name == "V8.js/SourceLoad/"@ {
        EventKind::SourceLoad
    } else if name == interval_begin_name() {
        EventKind::IntervalBegin
    } else if name
        == "Microsoft-Windows-Direct3D11/ID3D11VideoContext_SubmitDecoderBuffers/win:Stop"@ {
        EventKind::IntervalEnd
    } else if marker_name(name, firefox_prefix()) is Some {
        EventKind::Firefox
    } else if marker_name(name, chrome_prefix()) is Some {
        EventKind::Chrome
    } else {
        EventKind::Other
    }
}

/// What an event of the given name is.
pub fn classify(name: &str) -> (kind: EventKind)
    ensures
        kind == event_kind(name@),
{
    if same_text(name, "MSNT_SystemTrace/EventTrace/Header") {
        EventKind::Header
    } else if same_text(name, "MSNT_SystemTrace/PerfInfo/CollectionStart") {
        EventKind::CollectionStart
    } else if same_text(name, "MSNT_SystemTrace/Thread/SetName") {
        EventKind::ThreadSetName
    } else if same_text(name, "MSNT_SystemTrace/Thread/Start") || same_text(
        name,
        "MSNT_SystemTrace/Thread/DCStart",
    ) {
        EventKind::ThreadStart
    } else if same_text(name, "MSNT_SystemTrace/Thread/End") || same_text(
        name,
        "MSNT_SystemTrace/Thread/DCEnd",
    ) {
        EventKind::ThreadEnd
    } else if same_text(name, "MSNT_SystemTrace/Process/Start") || same_text(
        name,
        "MSNT_SystemTrace/Process/DCStart",
    ) {
        EventKind::ProcessStart
    } else if same_text(name, "MSNT_SystemTrace/StackWalk/Stack") {
        EventKind::StackWalk
    } else if same_text(name, "MSNT_SystemTrace/PerfInfo/SampleProf") {
        EventKind::SampleProf
    } else if same_text(name, "MSNT_SystemTrace/PageFault/DemandZeroFault") {
        EventKind::DemandZeroFault
    } else if same_text(name, "MSNT_SystemTrace/PageFault/VirtualFree") {
        EventKind::VirtualFree
    } else if same_text(name, "MSNT_SystemTrace/PageFault/VirtualAlloc") {
        EventKind::VirtualAlloc
    } else if same_text(name, "KernelTraceControl/ImageID/") {
        EventKind::ImageId
    } else if same_text(name, "KernelTraceControl/ImageID/DbgID_RSDS") {
        EventKind::DbgId
    } else if same_text(name, "MSNT_SystemTrace/Image/Load") || same_text(
        name,
        "MSNT_SystemTrace/Image/DCStart",
    ) {
        EventKind::ImageLoad
    } else if same_text(name, "Microsoft-Windows-DxgKrnl/VSyncDPC/Info ") {
        EventKind::VSync
    } else if same_text(name, "MSNT_SystemTrace/Thread/CSwitch") {
        EventKind::CSwitch
    } else if same_text(name, "MSNT_SystemTrace/Thread/ReadyThread") {
        EventKind::ReadyThread
    } else if same_text(name, "V8.js/MethodLoad/") || same_text(
        name,
        "Microsoft-JScript/MethodRuntime/MethodDCStart",
    ) || same_text(name, "Microsoft-JScript/MethodRuntime/MethodLoad") {
        EventKind::MethodLoad
    } else if same_text(name, "V8.js/SourceLoad/") {
        EventKind::SourceLoad
    } else if same_text(
        name,
        "Microsoft-Windows-Direct3D11/ID3D11VideoContext_SubmitDecoderBuffers/win:Start",
    ) {
        EventKind::IntervalBegin
    } else if same_text(
        name,
        "Microsoft-Windows-Direct3D11/ID3D11VideoContext_SubmitDecoderBuffers/win:Stop",
    ) {
        EventKind::IntervalEnd
    } else if application_marker_name(name, "Mozilla.FirefoxTraceLogger/").is_some() {
        EventKind::Firefox
    } else if application_marker_name(name, "Google.Chrome/").is_some() {
        EventKind::Chrome
    } else {
        EventKind::Other
    }
}

/// The name of the marker of an application event.
pub fn application_marker_name(name: &str, prefix: &str) -> (marker: Option<String>)
    ensures
        text_view(marker) == marker_name(name@, prefix@),
{
    let chars = chars_of(name);
    let prefix_chars = chars_of(prefix);
    if matches_at(&chars, &prefix_chars, 0) && chars.len() > prefix_chars.len() && chars[chars.len()
        - 1] == '/' {
        let mut marker: Vec<char> = Vec::new();
        let mut i: usize = prefix_chars.len();
        while i < chars.len() - 1
            invariant
                prefix_chars.len() <= i <= chars.len() - 1,
                marker@ == chars@.subrange(prefix_chars.len() as int, i as int),
            decreases chars.len() - i,
        {
            marker.push(chars[i]);
            i += 1;
        }
        Some(string_of(&marker))
    } else {
        None
    }
}

/// What stands in a name behind its first `/`.
pub open spec fn after_first_slash(name: Seq<char>) -> Option<Seq<char>> {
    if first_at_or_after(name, '/', 0) < name.len() {
        Some(name.skip(first_at_or_after(name, '/', 0) + 1))
    } else {
        None
    }
}

/// What stands in a name behind its first `/`.
pub fn short_name(name: &str) -> (short: Option<String>)
    ensures
        text_view(short) == after_first_slash(name@),
{
    let chars = chars_of(name);
    let slash: usize = find_char(&chars, '/');
    if slash < chars.len() {
        let mut short: Vec<char> = Vec::new();
        let mut i: usize = slash + 1;
        while i < chars.len()
            invariant
                slash + 1 <= i <= chars.len(),
                short@ == chars@.subrange(slash + 1, i as int),
            decreases chars.len() - i,
        {
            short.push(chars[i]);
            i += 1;
        }
        assert(chars@.subrange(slash + 1, chars.len() as int) == chars@.skip(slash + 1));
        Some(string_of(&short))
    } else {
        None
    }
}

/// What an event led to: the state after it, the operations it asks of
/// the profile, and why it was not handled, if it was not.
pub struct Outcome {
    pub state: EngineView,
    pub ops: Seq<SinkOpView>,
    pub error: Option<EventError>,
}

/// The outcome of an event that was handled.
pub open spec fn done(step: Step) -> Outcome {
    Outcome { state: step.state, ops: step.ops, error: None }
}

/// The outcome of an event that changes nothing.
pub open spec fn ignored(v: EngineView) -> Outcome {
    Outcome { state: v, ops: Seq::empty(), error: None }
}

/// The outcome of a malformed event.
pub open spec fn malformed(v: EngineView) -> Outcome {
    Outcome { state: count_dropped(v), ops: Seq::empty(), error: Some(EventError::Malformed) }
}

/// Whether what a handler returned and left behind is the outcome.
pub open spec fn agrees(
    state: EngineView,
    result: Result<Vec<SinkOp>, EventError>,
    outcome: Outcome,
) -> bool {
    &&& state == outcome.state
    &&& match result {
        Ok(ops) => outcome.error is None && op_views(ops@) == outcome.ops,
        Err(e) => outcome.error == Some(e),
    }
}

/// The state with one more event counted.
pub open spec fn count_event(v: EngineView) -> EngineView {
    EngineView {
        counters: Counters { event_count: next_count(v.counters.event_count), ..v.counters },
        ..v
    }
}

/// The fields of a Firefox event that its marker does not show.
pub open spec fn firefox_hidden() -> Seq<Seq<char>> {
    seq![
        "MarkerName"@,
        "StartTime"@,
        "EndTime"@,
        "Phase"@,
        "InnerWindowId"@,
        "CategoryPair"@,
    ]
}

/// The fields of a Chrome event that its marker does not show.
pub open spec fn chrome_hidden() -> Seq<Seq<char>> {
    seq!["Timestamp"@, "Phase"@, "Duration"@]
}

pub const PHASE_INSTANT: u8 = 0;

pub const PHASE_INTERVAL: u8 = 1;

pub const PHASE_INTERVAL_START: u8 = 2;

pub const PHASE_INTERVAL_END: u8 = 3;

/// The time of a Firefox marker. Its start and end are times of the
/// performance counter. An event of an older Firefox names no phase: then
/// two times mean an interval, and one time means an instant.
pub open spec fn firefox_timing(
    converter: TimestampConverter,
    phase: Option<u8>,
    start: u64,
    end: u64,
) -> Option<MarkerTiming> {
    let given = match phase {
        Some(p) => p,
        None => if start != 0 && end != 0 {
            PHASE_INTERVAL
        } else {
            PHASE_INSTANT
        },
    };
    let instant = match phase {
        Some(_) => start,
        None => if start != 0 {
            start
        } else {
            end
        },
    };
    if given == PHASE_INSTANT {
        Some(MarkerTiming::Instant(timestamp_at(converter.raw_nanos(instant))))
    } else if given == PHASE_INTERVAL {
        Some(
            MarkerTiming::Interval(
                timestamp_at(converter.raw_nanos(start)),
                timestamp_at(converter.raw_nanos(end)),
            ),
        )
    } else if given == PHASE_INTERVAL_START {
        Some(MarkerTiming::IntervalStart(timestamp_at(converter.raw_nanos(start))))
    } else if given == PHASE_INTERVAL_END {
        Some(MarkerTiming::IntervalEnd(timestamp_at(converter.raw_nanos(end))))
    } else {
        None
    }
}

/// The time of a Firefox marker.
pub fn firefox_marker_timing(
    converter: &TimestampConverter,
    phase: Option<u8>,
    start: u64,
    end: u64,
) -> (timing: Option<MarkerTiming>)
    ensures
        timing == firefox_timing(*converter, phase, start, end),
{
    let (given, instant): (u8, u64) = match phase {
        Some(p) => (p, start),
        None => {
            if start != 0 && end != 0 {
                (PHASE_INTERVAL, start)
            } else if start != 0 {
                (PHASE_INSTANT, start)
            } else {
                (PHASE_INSTANT, end)
            }
        },
    };
    if given == PHASE_INSTANT {
        Some(MarkerTiming::Instant(converter.convert_raw(instant)))
    } else if given == PHASE_INTERVAL {
        Some(MarkerTiming::Interval(converter.convert_raw(start), converter.convert_raw(end)))
    } else if given == PHASE_INTERVAL_START {
        Some(MarkerTiming::IntervalStart(converter.convert_raw(start)))
    } else if given == PHASE_INTERVAL_END {
        Some(MarkerTiming::IntervalEnd(converter.convert_raw(end)))
    } else {
        None
    }
}

/// The time of a Chrome marker: its phase is a word, and its time is in
/// microseconds.
pub open spec fn chrome_timing(converter: TimestampConverter, phase: Seq<char>, time_us: u64)
    -> MarkerTiming {
    let time = timestamp_at(converter.us_nanos(time_us));
    if phase == "Begin"@ {
        MarkerTiming::IntervalStart(time)
    } else if phase == "End"@ {
        MarkerTiming::IntervalEnd(time)
    } else {
        MarkerTiming::Instant(time)
    }
}

/// The time of a Chrome marker.
pub fn chrome_marker_timing(converter: &TimestampConverter, phase: &str, time_us: u64) -> (timing:
    MarkerTiming)
    ensures
        timing == chrome_timing(*converter, phase@, time_us),
{
    let time = converter.convert_us(time_us);
    if same_text(phase, "Begin") {
        MarkerTiming::IntervalStart(time)
    } else if same_text(phase, "End") {
        MarkerTiming::IntervalEnd(time)
    } else {
        MarkerTiming::Instant(time)
    }
}

/// The keyword bits that Chrome has given a name.
pub const CHROME_KEYWORDS: u64 = 0xffff_ffff_ffff;

/// The keyword of the events of the User Timing API.
pub const KEYWORD_BLINK_USER_TIMING: u64 = 0x10000;

} // verus!
