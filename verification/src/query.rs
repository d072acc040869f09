//! Query translator: turns an incoming fetch request — either an explicit
//! filter with a time window, or a structured network-event payload — into
//! one normalized query of start time, duration, packet filter and output
//! name.

use vstd::prelude::*;
use vstd::string::*;
use crate::strutil::{
    is_digit,
    all_digits,
    digits_val,
    dec_str,
    dec_str_i64,
    str_chars,
    digit_run_end,
    parse_u64_range,
    push_chars,
    push_u64,
    push_i64,
    str_eq,
    string_push,
};
use crate::spool::{run_end, lemma_run_end_char};
use crate::config::{Config, spec_find_spool, get_spool_config};

verus! {

/// An instant: whole unix seconds (floor) and the subsecond nanoseconds.
pub struct Timestamp {
    pub secs: i64,
    pub nanos: u32,
}

/// What `time`'s RFC 3339 parser returns for a string: unix seconds and
/// subsecond nanoseconds, or nothing when the string does not parse.
pub uninterp spec fn rfc3339_datetime(s: Seq<char>) -> Option<(int, int)>;

/// Relies on `time::OffsetDateTime::parse` with the RFC 3339 well-known
/// format: the result is a function of the characters alone, decomposed by
/// `unix_timestamp` (whole seconds, floor) and `nanosecond` (documented
/// below one billion); RFC 3339 years span 0000 to 9999, so the seconds are
/// bounded by those dates give or take a day of offset.
#[verifier::external_body]
fn parse_rfc3339(s: &str) -> (r: Option<Timestamp>)
    ensures
        match r {
            Some(t) => rfc3339_datetime(s@) == Some((t.secs as int, t.nanos as int)) && t.nanos
                < 1_000_000_000 && -62_200_000_000 <= t.secs <= 253_500_000_000,
            None => rfc3339_datetime(s@) is None,
        },
{
    match time::OffsetDateTime::parse(s, &time::format_description::well_known::Rfc3339) {
        Ok(d) => Some(Timestamp { secs: d.unix_timestamp(), nanos: d.nanosecond() }),
        Err(_) => None,
    }
}

/// A duration string: a run of digits followed by exactly one unit letter
/// (`s`, `m` or `h`); the value in seconds must fit a signed 64-bit count.
pub open spec fn spec_parse_duration(s: Seq<char>) -> Option<int> {
    let k = run_end(s, 0);
    if k == 0 || k >= s.len() {
        Option::None
    } else {
        let v = digits_val(s.subrange(0, k));
        let unit = s.subrange(k, s.len() as int);
        if v > i64::MAX {
            Option::None
        } else if unit == "s"@ {
            Option::Some(v)
        } else if unit == "m"@ {
            if v * 60 <= i64::MAX {
                Option::Some(v * 60)
            } else {
                Option::None
            }
        } else if unit == "h"@ {
            if v * 3600 <= i64::MAX {
                Option::Some(v * 3600)
            } else {
                Option::None
            }
        } else {
            Option::None
        }
    }
}

/// Parses a duration such as `1s`, `2m` or `3h` into seconds; malformed and
/// overflowing values fail.
pub fn parse_duration(s: &str) -> (r: Option<i64>)
    ensures
        match r {
            Some(d) => spec_parse_duration(s@) == Some(d as int),
            None => spec_parse_duration(s@) is None,
        },
{
    proof {
        reveal_strlit("s");
        reveal_strlit("m");
        reveal_strlit("h");
    }
    let v = str_chars(s);
    let n = v.len();
    let k = digit_run_end(&v, 0);
    proof {
        lemma_run_end_char(v@, 0, k as int);
    }
    if k == 0 || k >= n {
        return None;
    }
    assert(all_digits(v@.subrange(0, k as int))) by {
        assert(forall|j: int|
            0 <= j < k ==> #[trigger] v@.subrange(0, k as int)[j] == v@[j]);
    }
    let val: u64 = match parse_u64_range(&v, 0, k) {
        Some(x) => x,
        None => {
            return None;
        },
    };
    if val > i64::MAX as u64 {
        return None;
    }
    let value = val as i64;
    let ghost unit = v@.subrange(k as int, n as int);
    if n - k != 1 {
        assert(unit.len() != 1);
        assert(unit != "s"@ && unit != "m"@ && unit != "h"@);
        return None;
    }
    let u = v[k];
    assert(unit.len() == 1 && unit[0] == v@[k as int]);
    if u == 's' {
        assert(unit =~= "s"@);
        Some(value)
    } else if u == 'm' {
        assert(unit =~= "m"@);
        if value > i64::MAX / 60 {
            assert(value * 60 > i64::MAX);
            return None;
        }
        assert(value * 60 <= i64::MAX);
        Some(value * 60)
    } else if u == 'h' {
        assert(unit =~= "h"@);
        if value > i64::MAX / 3600 {
            assert(value * 3600 > i64::MAX);
            return None;
        }
        assert(value * 3600 <= i64::MAX);
        Some(value * 3600)
    } else {
        assert(unit != "s"@ && unit != "m"@ && unit != "h"@);
        None
    }
}

/// Position of the first numeric UTC offset written without a colon: a `+`
/// or `-` directly followed by four digits. The scan mirrors the timestamp
/// grammar and does not cross a line break.
pub open spec fn offset_pos(s: Seq<char>, from: int) -> Option<int>
    decreases s.len() - from,
{
    if from < 0 || from >= s.len() {
        Option::None
    } else if (s[from] == '+' || s[from] == '-') && from + 5 <= s.len() && is_digit(s[from + 1])
        && is_digit(s[from + 2]) && is_digit(s[from + 3]) && is_digit(s[from + 4]) {
        Option::Some(from)
    } else if s[from] == '\n' {
        Option::None
    } else {
        offset_pos(s, from + 1)
    }
}

/// The timestamp with a colon inserted into a colonless numeric offset, so
/// that the RFC 3339 parser accepts it; a string with no such offset is
/// unchanged.
pub open spec fn spec_normalize_timestamp(s: Seq<char>) -> Seq<char> {
    match offset_pos(s, 0) {
        Option::None => s,
        Option::Some(i) => s.subrange(0, i + 3) + seq![':'] + s.subrange(i + 3, s.len() as int),
    }
}

fn find_offset_pos(v: &Vec<char>) -> (r: Option<usize>)
    ensures
        match r {
            Some(i) => offset_pos(v@, 0) == Some(i as int) && i + 5 <= v@.len(),
            None => offset_pos(v@, 0) is None,
        },
{
    let n = v.len();
    let mut i: usize = 0;
    while i < n
        invariant
            i <= n,
            n == v@.len(),
            offset_pos(v@, 0) == offset_pos(v@, i as int),
        decreases n - i,
    {
        let c = v[i];
        if (c == '+' || c == '-') && n - i >= 5 {
            let ok = (v[i + 1] >= '0' && v[i + 1] <= '9') && (v[i + 2] >= '0' && v[i + 2] <= '9')
                && (v[i + 3] >= '0' && v[i + 3] <= '9') && (v[i + 4] >= '0' && v[i + 4] <= '9');
            if ok {
                return Some(i);
            }
        }
        if c == '\n' {
            return None;
        }
        assert(offset_pos(v@, i as int) == offset_pos(v@, i + 1));
        i = i + 1;
    }
    None
}

/// Rewrites a timestamp whose numeric offset lacks a colon (`-0600`) to the
/// RFC 3339 form (`-06:00`); anything else passes through unchanged.
pub fn normalize_timestamp(s: &str) -> (r: String)
    ensures
        r@ == spec_normalize_timestamp(s@),
{
    let v = str_chars(s);
    let n = v.len();
    match find_offset_pos(&v) {
        None => {
            let mut out = String::new();
            push_chars(&mut out, &v, 0, n);
            assert(v@.subrange(0, n as int) =~= v@);
            out
        },
        Some(i) => {
            let mut out = String::new();
            push_chars(&mut out, &v, 0, i + 3);
            string_push(&mut out, ':');
            push_chars(&mut out, &v, i + 3, n);
            assert(out@ =~= v@.subrange(0, i + 3) + seq![':'] + v@.subrange(i + 3, n as int));
            out
        },
    }
}

/// Parses a timestamp: the offset is first normalized, then the string must
/// be RFC 3339.
pub fn parse_timestamp(s: &str) -> (r: Option<Timestamp>)
    ensures
        match r {
            Some(t) => rfc3339_datetime(spec_normalize_timestamp(s@)) == Some(
                (t.secs as int, t.nanos as int),
            ) && t.nanos < 1_000_000_000 && -62_200_000_000 <= t.secs <= 253_500_000_000,
            None => rfc3339_datetime(spec_normalize_timestamp(s@)) is None,
        },
{
    let fixed = normalize_timestamp(s);
    parse_rfc3339(fixed.as_str())
}

/// An alert record inside an event: the rule's signature id.
pub struct EveAlert {
    pub signature_id: u64,
}

/// A flow or netflow sub-record: its own start and optional end time.
pub struct EveFlow {
    pub start: String,
    pub end: Option<String>,
}

/// A structured network-event payload.
pub struct EveEvent {
    pub timestamp: String,
    pub event_type: String,
    pub proto: String,
    pub src_ip: String,
    pub src_port: Option<u16>,
    pub dest_ip: String,
    pub dest_port: Option<u16>,
    pub alert: Option<EveAlert>,
    pub flow: Option<EveFlow>,
    pub netflow: Option<EveFlow>,
}

/// An instant as total nanoseconds since the epoch.
pub open spec fn ts_nanos(t: (int, int)) -> int {
    t.0 * 1_000_000_000 + t.1
}

/// Whole seconds of a nanosecond count, rounded toward zero.
pub open spec fn trunc_div_nanos(a: int) -> int {
    if a >= 0 {
        a / 1_000_000_000
    } else {
        -((-a) / 1_000_000_000)
    }
}

/// The view of an optional end-time string.
pub open spec fn spec_flow_end(flow: EveFlow) -> Option<Seq<char>> {
    match flow.end {
        Option::Some(e) => Option::Some(e@),
        Option::None => Option::None,
    }
}

/// The time frame a flow record asks for: one second before its start, and
/// either the flow's length plus two seconds (when the end parses) or the
/// default minute; nothing when the start does not parse.
pub open spec fn spec_flow_timeframe(start: Seq<char>, end: Option<Seq<char>>) -> Option<
    (int, int),
> {
    match rfc3339_datetime(spec_normalize_timestamp(start)) {
        Option::None => Option::None,
        Option::Some(st) => {
            let adj = st.0 - 1;
            match end {
                Option::Some(e) => match rfc3339_datetime(spec_normalize_timestamp(e)) {
                    Option::Some(et) => Option::Some(
                        (adj, trunc_div_nanos(ts_nanos(et) - ts_nanos(st) + 2_000_000_000)),
                    ),
                    Option::None => Option::Some((adj, 60)),
                },
                Option::None => Option::Some((adj, 60)),
            }
        },
    }
}

/// Whole seconds of a nanosecond count, rounded toward zero.
fn div_trunc_nanos(a: i128) -> (r: i128)
    requires
        -0x4000_0000_0000_0000_0000_0000 <= a <= 0x4000_0000_0000_0000_0000_0000,
    ensures
        r as int == trunc_div_nanos(a as int),
        -0x4000_0000_0000_0000_0000_0000 <= r <= 0x4000_0000_0000_0000_0000_0000,
{
    if a >= 0 {
        a / 1_000_000_000
    } else {
        -((-a) / 1_000_000_000)
    }
}

/// Parse out a start time and a duration in seconds from a flow or netflow
/// record: the frame is widened by one second on each side to catch the
/// complete flow.
pub fn parse_flow_timeframe(flow: &EveFlow) -> (r: Option<(i64, i64)>)
    ensures
        match r {
            Some((s, d)) => spec_flow_timeframe(flow.start@, spec_flow_end(*flow)) == Some(
                (s as int, d as int),
            ),
            None => spec_flow_timeframe(flow.start@, spec_flow_end(*flow)) is None,
        },
{
    let st = match parse_timestamp(flow.start.as_str()) {
        Some(t) => t,
        None => {
            return None;
        },
    };
    let adjusted: i64 = st.secs - 1;
    match &flow.end {
        Some(e) => match parse_timestamp(e.as_str()) {
            Some(et) => {
                let st_nanos: i128 = (st.secs as i128) * 1_000_000_000 + (st.nanos as i128);
                let et_nanos: i128 = (et.secs as i128) * 1_000_000_000 + (et.nanos as i128);
                let tot: i128 = et_nanos - st_nanos + 2_000_000_000;
                let d = div_trunc_nanos(tot);
                assert(-400_000_000_000 <= d <= 400_000_000_000);
                Some((adjusted, d as i64))
            },
            None => Some((adjusted, 60)),
        },
        None => Some((adjusted, 60)),
    }
}

/// Why no time frame could be derived from an event.
pub enum TimeframeError {
    BadTimestamp,
    BadDurationBefore,
    BadDurationAfter,
    OutOfRange,
}

/// The duration a request field asks for, one minute when absent.
pub open spec fn spec_duration_or_default(s: Option<Seq<char>>) -> Option<int> {
    match s {
        Option::None => Option::Some(60),
        Option::Some(d) => spec_parse_duration(d),
    }
}

/// The flow frame of an event, when its type names a flow or netflow record
/// that is present and whose start parses.
pub open spec fn flow_frame_of(ev: EveEvent) -> Option<(int, int)> {
    if ev.event_type@ == "flow"@ && ev.flow is Some {
        spec_flow_timeframe(ev.flow.unwrap().start@, spec_flow_end(ev.flow.unwrap()))
    } else if ev.event_type@ == "netflow"@ && ev.netflow is Some {
        spec_flow_timeframe(ev.netflow.unwrap().start@, spec_flow_end(ev.netflow.unwrap()))
    } else {
        Option::None
    }
}

/// The exact time frame of an event: the flow frame when one applies, else a
/// window around the event timestamp widened by the before/after durations
/// (default one minute each); the start is the window start, the duration
/// their sum.
pub open spec fn spec_event_timeframe(
    ev: EveEvent,
    before: Option<Seq<char>>,
    after: Option<Seq<char>>,
) -> Result<(int, int), TimeframeError> {
    match flow_frame_of(ev) {
        Option::Some(f) => Result::Ok(f),
        Option::None => match rfc3339_datetime(spec_normalize_timestamp(ev.timestamp@)) {
            Option::None => Result::Err(TimeframeError::BadTimestamp),
            Option::Some(ts) => match spec_duration_or_default(before) {
                Option::None => Result::Err(TimeframeError::BadDurationBefore),
                Option::Some(b) => match spec_duration_or_default(after) {
                    Option::None => Result::Err(TimeframeError::BadDurationAfter),
                    Option::Some(a) => Result::Ok((ts.0 - b, b + a)),
                },
            },
        },
    }
}

/// The view of an optional string field.
pub open spec fn opt_view(s: Option<String>) -> Option<Seq<char>> {
    match s {
        Option::Some(x) => Option::Some(x@),
        Option::None => Option::None,
    }
}

fn duration_or_default(s: &Option<String>) -> (r: Option<i64>)
    ensures
        match r {
            Some(d) => spec_duration_or_default(opt_view(*s)) == Some(d as int),
            None => spec_duration_or_default(opt_view(*s)) is None,
        },
{
    match s {
        Some(d) => parse_duration(d.as_str()),
        None => Some(60),
    }
}

/// Derives the start time and duration (both in seconds) a request asks for
/// around an event; a frame whose numbers do not fit 64-bit seconds is out
/// of range.
pub fn parse_event_timeframe(event: &EveEvent, before: &Option<String>, after: &Option<String>)
    -> (r: Result<(i64, i64), TimeframeError>)
    ensures
        match spec_event_timeframe(*event, opt_view(*before), opt_view(*after)) {
            Result::Ok((s, d)) => if i64::MIN <= s <= i64::MAX && i64::MIN <= d <= i64::MAX {
                r == Result::<(i64, i64), TimeframeError>::Ok((s as i64, d as i64))
            } else {
                r == Result::<(i64, i64), TimeframeError>::Err(TimeframeError::OutOfRange)
            },
            Result::Err(e) => r == Result::<(i64, i64), TimeframeError>::Err(e),
        },
{
    proof {
        broadcast use vstd::string::group_string_axioms;

        reveal_strlit("flow");
        reveal_strlit("netflow");
        assert("flow"@.len() == 4);
        assert("netflow"@.len() == 7);
    }
    if str_eq(event.event_type.as_str(), "flow") {
        if let Some(flow) = &event.flow {
            assert(event.flow.unwrap() == *flow);
            if let Some(frame) = parse_flow_timeframe(flow) {
                return Ok(frame);
            }
        }
        assert(flow_frame_of(*event) is None);
    } else if str_eq(event.event_type.as_str(), "netflow") {
        if let Some(netflow) = &event.netflow {
            assert(event.netflow.unwrap() == *netflow);
            if let Some(frame) = parse_flow_timeframe(netflow) {
                return Ok(frame);
            }
        }
        assert(flow_frame_of(*event) is None);
    } else {
        assert(flow_frame_of(*event) is None);
    }
    let ts = match parse_timestamp(event.timestamp.as_str()) {
        Some(t) => t,
        None => {
            return Err(TimeframeError::BadTimestamp);
        },
    };
    let b = match duration_or_default(before) {
        Some(d) => d,
        None => {
            return Err(TimeframeError::BadDurationBefore);
        },
    };
    let a = match duration_or_default(after) {
        Some(d) => d,
        None => {
            return Err(TimeframeError::BadDurationAfter);
        },
    };
    let start_wide: i128 = (ts.secs as i128) - (b as i128);
    let dur_wide: i128 = (b as i128) + (a as i128);
    if start_wide < i64::MIN as i128 || start_wide > i64::MAX as i128 || dur_wide < i64::MIN
        as i128 || dur_wide > i64::MAX as i128 {
        return Err(TimeframeError::OutOfRange);
    }
    Ok((start_wide as i64, dur_wide as i64))
}


/// What `str::to_lowercase` returns: a function of the characters alone.
pub uninterp spec fn lower_of(s: Seq<char>) -> Seq<char>;

/// Relies on `str::to_lowercase`: the result depends on the characters
/// alone.
#[verifier::external_body]
fn lowercase(s: &str) -> (r: String)
    ensures
        r@ == lower_of(s@),
{
    s.to_lowercase()
}

/// The filter built when both ports are known: protocol lowered, both hosts
/// each paired with their port.
pub open spec fn spec_filter_both_ports(
    proto: Seq<char>,
    src: Seq<char>,
    sp: u16,
    dst: Seq<char>,
    dp: u16,
) -> Seq<char> {
    lower_of(proto) + " and ((host "@ + src + " and port "@ + dec_str(sp as int) + ") and (host "@
        + dst + " and port "@ + dec_str(dp as int) + "))"@
}

/// The filter built when a port is missing: protocol as given, both hosts.
pub open spec fn spec_filter_hosts(proto: Seq<char>, src: Seq<char>, dst: Seq<char>) -> Seq<char> {
    proto + " and host "@ + src + " and host "@ + dst
}

/// The packet filter an event asks for.
pub open spec fn spec_event_filter(ev: EveEvent) -> Seq<char> {
    if ev.src_port is Some && ev.dest_port is Some {
        spec_filter_both_ports(
            ev.proto@,
            ev.src_ip@,
            ev.src_port.unwrap(),
            ev.dest_ip@,
            ev.dest_port.unwrap(),
        )
    } else {
        spec_filter_hosts(ev.proto@, ev.src_ip@, ev.dest_ip@)
    }
}

fn push_str_all(out: &mut String, s: &str)
    ensures
        final(out)@ == old(out)@ + s@,
{
    let v = str_chars(s);
    let n = v.len();
    push_chars(out, &v, 0, n);
    assert(v@.subrange(0, n as int) =~= v@);
}

/// Builds the packet filter for an event: with both ports present the
/// protocol is lowered and each host is paired with its port; otherwise the
/// filter matches the two hosts.
pub fn build_filter(ev: &EveEvent) -> (r: String)
    ensures
        r@ == spec_event_filter(*ev),
{
    match (&ev.src_port, &ev.dest_port) {
        (Some(sp), Some(dp)) => {
            let mut out = lowercase(ev.proto.as_str());
            push_str_all(&mut out, " and ((host ");
            push_str_all(&mut out, ev.src_ip.as_str());
            push_str_all(&mut out, " and port ");
            push_u64(&mut out, *sp as u64);
            push_str_all(&mut out, ") and (host ");
            push_str_all(&mut out, ev.dest_ip.as_str());
            push_str_all(&mut out, " and port ");
            push_u64(&mut out, *dp as u64);
            push_str_all(&mut out, "))");
            assert(out@ =~= spec_filter_both_ports(
                ev.proto@,
                ev.src_ip@,
                ev.src_port.unwrap(),
                ev.dest_ip@,
                ev.dest_port.unwrap(),
            ));
            out
        },
        _ => {
            let mut out = String::new();
            push_str_all(&mut out, ev.proto.as_str());
            push_str_all(&mut out, " and host ");
            push_str_all(&mut out, ev.src_ip.as_str());
            push_str_all(&mut out, " and host ");
            push_str_all(&mut out, ev.dest_ip.as_str());
            assert(out@ =~= spec_filter_hosts(ev.proto@, ev.src_ip@, ev.dest_ip@));
            out
        },
    }
}

/// The output name for an event query: signature id, start time, addresses
/// and ports (0 when absent), joined by dashes, with the capture extension.
pub open spec fn spec_event_output_name(
    sid: u64,
    start_secs: int,
    src: Seq<char>,
    sp: int,
    dst: Seq<char>,
    dp: int,
) -> Seq<char> {
    dec_str(sid as int) + "-"@ + dec_str_i64(start_secs) + "-"@ + src + "-"@ + dec_str(sp) + "-"@
        + dst + "-"@ + dec_str(dp) + ".pcap"@
}

/// The output name for a filter query: the window start as an epoch second
/// count, with the capture extension.
pub open spec fn spec_epoch_output_name(start_secs: int) -> Seq<char> {
    dec_str_i64(start_secs) + ".pcap"@
}

/// The signature id of an event, 0 when it carries no alert.
pub open spec fn spec_signature_id(ev: EveEvent) -> u64 {
    match ev.alert {
        Option::Some(a) => a.signature_id,
        Option::None => 0u64,
    }
}

/// The port value used in an output name, 0 when absent.
pub open spec fn spec_port_or_zero(p: Option<u16>) -> int {
    match p {
        Option::Some(x) => x as int,
        Option::None => 0,
    }
}

/// Builds the output name for an event query.
pub fn build_event_output_name(ev: &EveEvent, start_secs: i64) -> (r: String)
    ensures
        r@ == spec_event_output_name(
            spec_signature_id(*ev),
            start_secs as int,
            ev.src_ip@,
            spec_port_or_zero(ev.src_port),
            ev.dest_ip@,
            spec_port_or_zero(ev.dest_port),
        ),
{
    let sid: u64 = match &ev.alert {
        Some(a) => a.signature_id,
        None => 0,
    };
    let sp: u64 = match &ev.src_port {
        Some(p) => *p as u64,
        None => 0,
    };
    let dp: u64 = match &ev.dest_port {
        Some(p) => *p as u64,
        None => 0,
    };
    let mut out = String::new();
    push_u64(&mut out, sid);
    push_str_all(&mut out, "-");
    push_i64(&mut out, start_secs);
    push_str_all(&mut out, "-");
    push_str_all(&mut out, ev.src_ip.as_str());
    push_str_all(&mut out, "-");
    push_u64(&mut out, sp);
    push_str_all(&mut out, "-");
    push_str_all(&mut out, ev.dest_ip.as_str());
    push_str_all(&mut out, "-");
    push_u64(&mut out, dp);
    push_str_all(&mut out, ".pcap");
    assert(out@ =~= spec_event_output_name(
        spec_signature_id(*ev),
        start_secs as int,
        ev.src_ip@,
        spec_port_or_zero(ev.src_port),
        ev.dest_ip@,
        spec_port_or_zero(ev.dest_port),
    ));
    out
}

/// Builds the output name for a filter query.
pub fn build_epoch_output_name(start_secs: i64) -> (r: String)
    ensures
        r@ == spec_epoch_output_name(start_secs as int),
{
    let mut out = String::new();
    push_i64(&mut out, start_secs);
    push_str_all(&mut out, ".pcap");
    assert(out@ =~= spec_epoch_output_name(start_secs as int));
    out
}


/// An incoming fetch request, exactly the fields of the HTTP form.
pub struct FetchRequest {
    pub query_type: String,
    pub filter: Option<String>,
    pub start_time: Option<String>,
    pub duration: Option<String>,
    pub event: Option<String>,
    pub duration_before: Option<String>,
    pub duration_after: Option<String>,
    pub spool: String,
}

/// A client error: the generic diagnostic sent back with a 400 status.
#[derive(Debug)]
pub struct BadRequest {
    pub reason: String,
}

impl BadRequest {
    /// A client error with this diagnostic.
    pub fn new(reason: &str) -> (r: Self)
        ensures
            r.reason@ == reason@,
    {
        BadRequest { reason: String::from_str(reason) }
    }
}

/// The decoded state of a request's event field: absent, present but not a
/// well-formed event document, or decoded.
pub enum EventPayload {
    Missing,
    Malformed,
    Parsed(EveEvent),
}

/// One normalized query: where to start, how long to scan, what to match,
/// and the name the result is served under.
#[derive(Debug)]
pub struct FetchQuery {
    pub start_time: i64,
    pub duration: i64,
    pub filter: String,
    pub output_name: String,
}

/// The exact translation of a request: the normalized query's start time,
/// duration, filter and output name, or the diagnostic of the validation
/// error. The spool must be known; a `filter` query needs a start time, a
/// parsable RFC 3339 start and duration and an explicit filter; an `event`
/// query needs a decoded event with a derivable time frame.
pub open spec fn spec_translate(
    config: Config,
    req: FetchRequest,
    event: EventPayload,
) -> Result<(int, int, Seq<char>, Seq<char>), Seq<char>> {
    if spec_find_spool(config.spools@, req.spool@) is None {
        Result::Err("invalid spool name"@)
    } else if req.query_type@ == "filter"@ {
        match opt_view(req.start_time) {
            Option::None => Result::Err("start-time is required"@),
            Option::Some(st) => match rfc3339_datetime(st) {
                Option::None => Result::Err("invalid start-time"@),
                Option::Some(ts) => match spec_duration_or_default(opt_view(req.duration)) {
                    Option::None => Result::Err("invalid duration"@),
                    Option::Some(d) => match req.filter {
                        Option::None => Result::Err("filter is required"@),
                        Option::Some(f) => Result::Ok(
                            (ts.0, d, f@, spec_epoch_output_name(ts.0)),
                        ),
                    },
                },
            },
        }
    } else if req.query_type@ == "event"@ {
        match event {
            EventPayload::Missing => Result::Err("no event provided for event query"@),
            EventPayload::Malformed => Result::Err("bad event"@),
            EventPayload::Parsed(ev) => match spec_event_timeframe(
                ev,
                opt_view(req.duration_before),
                opt_view(req.duration_after),
            ) {
                Result::Err(TimeframeError::BadTimestamp) => Result::Err(
                    "failed to parse event timestamp"@,
                ),
                Result::Err(TimeframeError::BadDurationBefore) => Result::Err(
                    "invalid duration-before"@,
                ),
                Result::Err(TimeframeError::BadDurationAfter) => Result::Err(
                    "invalid duration-after"@,
                ),
                Result::Err(TimeframeError::OutOfRange) => Result::Err("invalid duration"@),
                Result::Ok((s, d)) => if i64::MIN <= s <= i64::MAX && i64::MIN <= d <= i64::MAX {
                    Result::Ok(
                        (
                            s,
                            d,
                            spec_event_filter(ev),
                            spec_event_output_name(
                                spec_signature_id(ev),
                                s,
                                ev.src_ip@,
                                spec_port_or_zero(ev.src_port),
                                ev.dest_ip@,
                                spec_port_or_zero(ev.dest_port),
                            ),
                        ),
                    )
                } else {
                    Result::Err("invalid duration"@)
                },
            },
        }
    } else {
        Result::Err("bad query type"@)
    }
}

/// Translates a request into one normalized query, or the validation error
/// the client is answered with.
pub fn translate(config: &Config, req: &FetchRequest, event: &EventPayload) -> (r: Result<
    FetchQuery,
    BadRequest,
>)
    ensures
        match r {
            Result::Ok(q) => spec_translate(*config, *req, *event) matches Result::Ok(t)
                && q.start_time as int == t.0 && q.duration as int == t.1 && q.filter@ == t.2
                && q.output_name@ == t.3,
            Result::Err(e) => spec_translate(*config, *req, *event) matches Result::Err(m)
                && e.reason@ == m,
        },
{
    proof {
        broadcast use vstd::string::group_string_axioms;

        reveal_strlit("filter");
        reveal_strlit("event");
        assert("filter"@.len() == 6);
        assert("event"@.len() == 5);
    }
    if get_spool_config(config, req.spool.as_str()).is_none() {
        return Err(BadRequest::new("invalid spool name"));
    }
    if str_eq(req.query_type.as_str(), "filter") {
        let st = match &req.start_time {
            Some(st) => st,
            None => {
                return Err(BadRequest::new("start-time is required"));
            },
        };
        let ts = match parse_rfc3339(st.as_str()) {
            Some(t) => t,
            None => {
                return Err(BadRequest::new("invalid start-time"));
            },
        };
        let d = match duration_or_default(&req.duration) {
            Some(d) => d,
            None => {
                return Err(BadRequest::new("invalid duration"));
            },
        };
        let f = match &req.filter {
            Some(f) => f.clone(),
            None => {
                return Err(BadRequest::new("filter is required"));
            },
        };
        let output_name = build_epoch_output_name(ts.secs);
        Ok(FetchQuery { start_time: ts.secs, duration: d, filter: f, output_name })
    } else if str_eq(req.query_type.as_str(), "event") {
        match event {
            EventPayload::Missing => Err(BadRequest::new("no event provided for event query")),
            EventPayload::Malformed => Err(BadRequest::new("bad event")),
            EventPayload::Parsed(ev) => {
                let frame = match parse_event_timeframe(
                    ev,
                    &req.duration_before,
                    &req.duration_after,
                ) {
                    Ok(f) => f,
                    Err(TimeframeError::BadTimestamp) => {
                        return Err(BadRequest::new("failed to parse event timestamp"));
                    },
                    Err(TimeframeError::BadDurationBefore) => {
                        return Err(BadRequest::new("invalid duration-before"));
                    },
                    Err(TimeframeError::BadDurationAfter) => {
                        return Err(BadRequest::new("invalid duration-after"));
                    },
                    Err(TimeframeError::OutOfRange) => {
                        return Err(BadRequest::new("invalid duration"));
                    },
                };
                let filter = build_filter(ev);
                let output_name = build_event_output_name(ev, frame.0);
                Ok(
                    FetchQuery {
                        start_time: frame.0,
                        duration: frame.1,
                        filter,
                        output_name,
                    },
                )
            },
        }
    } else {
        Err(BadRequest::new("bad query type"))
    }
}


} // verus!
