//! Streams of records: a buffer that keeps records for the retention
//! period, the event-time watermark, windows that fire once their end has
//! passed, and the records a windowed query reads. What the records' JSON
//! data holds (filters, grouping, aggregates) is left to the caller; the
//! current time is an argument.

use vstd::prelude::*;
use std::collections::VecDeque;
use crate::ast::{FieldView, StreamDef, StreamSchema, StreamWindowSpec, fields_view};
use crate::strmap::StrMap;

verus! {

/// Settings of a stream.
#[derive(Debug, Clone, Copy, PartialEq, Eq, Structural)]
pub struct StreamConfig {
    pub max_buffer_size: usize,
    pub retention_ms: u64,
    pub enable_watermark: bool,
    pub allowed_lateness_ms: u64,
}

impl Default for StreamConfig {
    /// A buffer of 10000 records kept for an hour, watermarks on, a minute
    /// of allowed lateness.
    fn default() -> (c: Self)
        ensures
            c == (StreamConfig { max_buffer_size: 10000, retention_ms: 3600000, enable_watermark: true, allowed_lateness_ms: 60000 }),
    {
        StreamConfig { max_buffer_size: 10000, retention_ms: 3600000, enable_watermark: true, allowed_lateness_ms: 60000 }
    }
}

/// Window kinds of stream processing, in milliseconds.
#[derive(Debug, Clone, Copy, PartialEq, Eq, Structural)]
pub enum WindowType {
    Tumbling { duration_ms: u64 },
    Sliding { duration_ms: u64, slide_ms: u64 },
    Session { gap_ms: u64 },
}

/// Counters of a stream.
#[derive(Debug, Clone, PartialEq, Eq)]
pub struct StreamStats {
    pub name: String,
    pub record_count: usize,
    pub window_count: usize,
    pub watermark: u64,
}

/// A record of a stream.
#[derive(Debug, Clone)]
pub struct StreamRecord {
    pub id: String,
    /// The record's data as JSON text.
    pub data: String,
    /// Arrival time, in milliseconds since the epoch.
    pub timestamp: u64,
    /// Time of the event the record describes, where known.
    pub event_time: Option<u64>,
    pub watermark: Option<u64>,
}

/// Abstract value of a [`StreamRecord`].
pub struct RecordView {
    pub id: Seq<char>,
    pub data: Seq<char>,
    pub timestamp: u64,
    pub event_time: Option<u64>,
    pub watermark: Option<u64>,
}

impl View for StreamRecord {
    type V = RecordView;

    open spec fn view(&self) -> RecordView {
        RecordView {
            id: self.id@,
            data: self.data@,
            timestamp: self.timestamp,
            event_time: self.event_time,
            watermark: self.watermark,
        }
    }
}

/// The records as abstract values.
pub open spec fn records_view(rs: Seq<StreamRecord>) -> Seq<RecordView> {
    rs.map_values(|r: StreamRecord| r@)
}

/// The time a record counts at: its event time where known, else its
/// arrival time.
pub open spec fn record_time(r: RecordView) -> u64 {
    match r.event_time {
        Some(t) => t,
        None => r.timestamp,
    }
}

/// Copies a record.
pub fn clone_record(r: &StreamRecord) -> (c: StreamRecord)
    ensures
        c@ == r@,
{
    StreamRecord {
        id: r.id.clone(),
        data: r.data.clone(),
        timestamp: r.timestamp,
        event_time: r.event_time,
        watermark: r.watermark,
    }
}

/// A window of a stream.
pub struct WindowState {
    pub window_type: WindowType,
    pub records: Vec<StreamRecord>,
    pub start_time: u64,
    pub end_time: u64,
    pub is_triggered: bool,
    pub last_trigger_time: Option<u64>,
}

/// Abstract value of a [`WindowState`].
pub struct WindowView {
    pub window_type: WindowType,
    pub records: Seq<RecordView>,
    pub start_time: u64,
    pub end_time: u64,
    pub is_triggered: bool,
    pub last_trigger_time: Option<u64>,
}

impl View for WindowState {
    type V = WindowView;

    open spec fn view(&self) -> WindowView {
        WindowView {
            window_type: self.window_type,
            records: records_view(self.records@),
            start_time: self.start_time,
            end_time: self.end_time,
            is_triggered: self.is_triggered,
            last_trigger_time: self.last_trigger_time,
        }
    }
}

/// The windows as abstract values, with their ids.
pub open spec fn windows_view(ws: Seq<(String, WindowState)>) -> Seq<(Seq<char>, WindowView)> {
    ws.map_values(|p: (String, WindowState)| (p.0@, p.1@))
}

/// A registered stream.
pub struct StreamState {
    pub name: String,
    pub topic: String,
    pub schema: StreamSchema,
    /// Records in arrival order.
    pub buffer: VecDeque<StreamRecord>,
    pub windows: Vec<(String, WindowState)>,
    /// The event-time watermark, once an event time has been seen.
    pub watermark: Option<u64>,
    pub config: StreamConfig,
}

/// Abstract value of a [`StreamState`].
pub struct StateView {
    pub name: Seq<char>,
    pub topic: Seq<char>,
    pub fields: Seq<FieldView>,
    pub buffer: Seq<RecordView>,
    pub windows: Seq<(Seq<char>, WindowView)>,
    pub watermark: Option<u64>,
    pub config: StreamConfig,
}

impl View for StreamState {
    type V = StateView;

    open spec fn view(&self) -> StateView {
        StateView {
            name: self.name@,
            topic: self.topic@,
            fields: fields_view(self.schema.fields@),
            buffer: records_view(self.buffer@),
            windows: windows_view(self.windows@),
            watermark: self.watermark,
            config: self.config,
        }
    }
}

/// Events a stream processor publishes.
#[derive(Debug, Clone)]
pub enum StreamEvent {
    /// A record arrived.
    Record { stream_name: String, record: StreamRecord },
    /// A window fired; the results are its records' data.
    WindowTrigger { stream_name: String, window_id: String, results: Vec<String> },
    /// The watermark advanced.
    Watermark { stream_name: String, watermark: u64 },
    /// A change to a table; the images are JSON text.
    ChangeDataCapture { table: String, operation: String, before: Option<String>, after: Option<String> },
}

/// Abstract value of a [`StreamEvent`].
pub enum EventView {
    Record(Seq<char>, RecordView),
    WindowTrigger(Seq<char>, Seq<char>, Seq<Seq<char>>),
    Watermark(Seq<char>, u64),
    ChangeDataCapture(Seq<char>, Seq<char>, Option<Seq<char>>, Option<Seq<char>>),
}

/// The characters of an optional string.
pub open spec fn opt_chars(o: Option<String>) -> Option<Seq<char>> {
    match o {
        Some(s) => Some(s@),
        None => None,
    }
}

/// The strings as abstract values.
pub open spec fn strings_view(ss: Seq<String>) -> Seq<Seq<char>> {
    ss.map_values(|s: String| s@)
}

impl View for StreamEvent {
    type V = EventView;

    open spec fn view(&self) -> EventView {
        match self {
            StreamEvent::Record { stream_name, record } => EventView::Record(stream_name@, record@),
            StreamEvent::WindowTrigger { stream_name, window_id, results } =>
                EventView::WindowTrigger(stream_name@, window_id@, strings_view(results@)),
            StreamEvent::Watermark { stream_name, watermark } => EventView::Watermark(stream_name@, *watermark),
            StreamEvent::ChangeDataCapture { table, operation, before, after } =>
                EventView::ChangeDataCapture(table@, operation@, opt_chars(*before), opt_chars(*after)),
        }
    }
}

/// The events as abstract values.
pub open spec fn events_view(es: Seq<StreamEvent>) -> Seq<EventView> {
    es.map_values(|e: StreamEvent| e@)
}

/// The buffer after dropping, from the front, every record older than
/// `retention` at `now`; the first record that is not stops the dropping.
pub open spec fn drop_expired(buf: Seq<RecordView>, now: u64, retention: u64) -> Seq<RecordView>
    decreases buf.len(),
{
    if buf.len() > 0 && record_time(buf[0]) <= now && now - record_time(buf[0]) > retention {
        drop_expired(buf.drop_first(), now, retention)
    } else {
        buf
    }
}

/// Whether dropping expired records at `now` meets no record dated after
/// `now` (whose age is not a natural number).
pub open spec fn cleanup_safe(buf: Seq<RecordView>, now: u64, retention: u64) -> bool
    decreases buf.len(),
{
    buf.len() == 0 || (record_time(buf[0]) <= now && (now - record_time(buf[0]) > retention
        ==> cleanup_safe(buf.drop_first(), now, retention)))
}

/// A watermark's value, 0 before any.
pub open spec fn watermark_value(w: Option<u64>) -> u64 {
    match w {
        Some(x) => x,
        None => 0,
    }
}

/// The watermark after a record with event time `t`: the larger of the
/// two once an event time is known.
pub open spec fn advance_watermark(w: Option<u64>, t: Option<u64>) -> Option<u64> {
    match t {
        Some(t) => Some(if t > watermark_value(w) { t } else { watermark_value(w) }),
        None => w,
    }
}

/// Whether a window fires at `now`: it has not fired and its end has
/// passed.
pub open spec fn fires(w: WindowView, now: u64) -> bool {
    !w.is_triggered && now >= w.end_time
}

/// A window after `now`: marked fired at `now` where it fires.
pub open spec fn after_firing(w: WindowView, now: u64) -> WindowView {
    if fires(w, now) {
        WindowView {
            window_type: w.window_type,
            records: w.records,
            start_time: w.start_time,
            end_time: w.end_time,
            is_triggered: true,
            last_trigger_time: Some(now),
        }
    } else {
        w
    }
}

/// The data of the records.
pub open spec fn record_data(rs: Seq<RecordView>) -> Seq<Seq<char>> {
    rs.map_values(|r: RecordView| r.data)
}

/// The events of the windows that fire at `now`, in window order.
pub open spec fn window_events(name: Seq<char>, ws: Seq<(Seq<char>, WindowView)>, now: u64) -> Seq<EventView>
    decreases ws.len(),
{
    if ws.len() == 0 {
        Seq::empty()
    } else {
        let rest = window_events(name, ws.drop_last(), now);
        let (id, w) = ws.last();
        if fires(w, now) {
            rest.push(EventView::WindowTrigger(name, id, record_data(w.records)))
        } else {
            rest
        }
    }
}

/// A stream after a record arrives at `now`: the record appended and the
/// expired records dropped, the watermark advanced, the due windows fired.
pub open spec fn ingested(s: StateView, rec: RecordView, now: u64) -> StateView {
    StateView {
        name: s.name,
        topic: s.topic,
        fields: s.fields,
        buffer: drop_expired(s.buffer.push(rec), now, s.config.retention_ms),
        windows: s.windows.map_values(|p: (Seq<char>, WindowView)| (p.0, after_firing(p.1, now))),
        watermark: advance_watermark(s.watermark, rec.event_time),
        config: s.config,
    }
}

/// What a record's arrival publishes: the watermark where it advances,
/// the record, then the windows that fire.
pub open spec fn ingest_events(name: Seq<char>, s: StateView, rec: RecordView, now: u64) -> Seq<EventView> {
    let marks = match rec.event_time {
        Some(t) => if t > watermark_value(s.watermark) { seq![EventView::Watermark(name, t)] } else { Seq::empty() },
        None => Seq::empty(),
    };
    marks + seq![EventView::Record(name, rec)] + window_events(name, s.windows, now)
}

/// Milliseconds in one of the unit: `s`, `m`, `h` or `d`; a second for
/// any other unit.
pub open spec fn unit_ms(unit: Seq<char>) -> u64 {
    if unit == "s"@ {
        1000
    } else if unit == "m"@ {
        60000
    } else if unit == "h"@ {
        3600000
    } else if unit == "d"@ {
        86400000
    } else {
        1000
    }
}

/// The records whose time lies between `start` and `now`, in order.
pub open spec fn in_window(buf: Seq<RecordView>, start: u64, now: u64) -> Seq<RecordView> {
    buf.filter(|r: RecordView| start <= record_time(r) <= now)
}

/// A new stream for `def`: empty, without watermark, with the default
/// settings.
pub open spec fn fresh_stream(def: StreamDef) -> StateView {
    StateView {
        name: def.name@,
        topic: def.topic@,
        fields: fields_view(def.schema.fields@),
        buffer: Seq::empty(),
        windows: Seq::empty(),
        watermark: None,
        config: StreamConfig { max_buffer_size: 10000, retention_ms: 3600000, enable_watermark: true, allowed_lateness_ms: 60000 },
    }
}

/// The message for a stream that is not registered.
pub open spec fn not_found(name: Seq<char>) -> Seq<char> {
    "Stream '"@ + name + "' not found"@
}

/// Registered streams by name.
pub struct StreamProcessor {
    streams: StrMap<StreamState>,
}

impl View for StreamProcessor {
    type V = Map<Seq<char>, StateView>;

    closed spec fn view(&self) -> Map<Seq<char>, StateView> {
        self.streams.spec_map().map_values(|s: StreamState| s@)
    }
}

fn concat(a: &str, b: &str) -> (r: String)
    ensures
        r@ == a@ + b@,
{
    let mut r = a.to_owned();
    r.append(b);
    r
}

fn not_found_message(name: &str) -> (m: String)
    ensures
        m@ == not_found(name@),
{
    let a = concat("Stream '", name);
    concat(a.as_str(), "' not found")
}

fn time_of(r: &StreamRecord) -> (t: u64)
    ensures
        t == record_time(r@),
{
    match r.event_time {
        Some(t) => t,
        None => r.timestamp,
    }
}

/// Drops the expired records from the front of the buffer.
fn drop_expired_records(buf: &mut VecDeque<StreamRecord>, now: u64, retention: u64)
    requires
        cleanup_safe(records_view(old(buf)@), now, retention),
    ensures
        records_view(final(buf)@) == drop_expired(records_view(old(buf)@), now, retention),
{
    let ghost start = records_view(buf@);
    loop
        invariant
            cleanup_safe(records_view(buf@), now, retention),
            drop_expired(records_view(buf@), now, retention) == drop_expired(start, now, retention),
        ensures
            records_view(buf@) == drop_expired(start, now, retention),
        decreases buf@.len(),
    {
        if buf.len() == 0 {
            break;
        }
        let t = time_of(&buf[0]);
        assert(records_view(buf@)[0] == buf@[0]@);
        if now - t > retention {
            let ghost before = buf@;
            buf.pop_front();
            proof {
                assert(records_view(buf@) =~= records_view(before).drop_first());
            }
        } else {
            break;
        }
    }
}

/// The data of the records.
fn data_of(rs: &Vec<StreamRecord>) -> (r: Vec<String>)
    ensures
        strings_view(r@) == record_data(records_view(rs@)),
{
    let mut r: Vec<String> = Vec::new();
    let mut i: usize = 0;
    while i < rs.len()
        invariant
            i <= rs.len(),
            strings_view(r@) == record_data(records_view(rs@.take(i as int))),
        decreases rs.len() - i,
    {
        let ghost before = strings_view(r@);
        let d = rs[i].data.clone();
        r.push(d);
        proof {
            assert(strings_view(r@) =~= before.push(rs@[i as int].data@));
            assert(records_view(rs@.take(i + 1)) =~= records_view(rs@.take(i as int)).push(rs@[i as int]@));
            assert(strings_view(r@) =~= record_data(records_view(rs@.take(i + 1))));
        }
        i = i + 1;
    }
    proof {
        assert(rs@.take(rs.len() as int) =~= rs@);
    }
    r
}

/// Fires the windows due at `now`, appending their events.
fn fire_windows(name: &str, windows: &mut Vec<(String, WindowState)>, now: u64, events: &mut Vec<StreamEvent>)
    ensures
        windows_view(final(windows)@) == windows_view(old(windows)@).map_values(
            |p: (Seq<char>, WindowView)| (p.0, after_firing(p.1, now)),
        ),
        events_view(final(events)@) == events_view(old(events)@) + window_events(name@, windows_view(old(windows)@), now),
{
    let ghost ws0 = windows_view(windows@);
    let ghost ev0 = events_view(events@);
    let ghost f = |p: (Seq<char>, WindowView)| (p.0, after_firing(p.1, now));
    let mut out: Vec<(String, WindowState)> = Vec::new();
    let mut i: usize = 0;
    let n = windows.len();
    proof {
        assert(windows_view(out@) =~= ws0.take(0).map_values(f));
        assert(window_events(name@, ws0.take(0), now) =~= Seq::<EventView>::empty());
        assert(events_view(events@) =~= ev0 + window_events(name@, ws0.take(0), now));
        assert(windows_view(windows@) =~= ws0.skip(0));
    }
    while windows.len() > 0
        invariant
            n == ws0.len(),
            i + windows@.len() == n,
            windows_view(windows@) == ws0.skip(i as int),
            windows_view(out@) == ws0.take(i as int).map_values(f),
            events_view(events@) == ev0 + window_events(name@, ws0.take(i as int), now),
            f == (|p: (Seq<char>, WindowView)| (p.0, after_firing(p.1, now))),
        decreases windows@.len(),
    {
        let ghost rest = windows@;
        let (id, w) = windows.remove(0);
        proof {
            assert(windows_view(rest)[0] == ws0[i as int]);
            assert(windows@ =~= rest.subrange(1, rest.len() as int));
            assert(windows_view(windows@) =~= windows_view(rest).skip(1));
            assert(windows_view(windows@) =~= ws0.skip(i + 1));
            assert(ws0.take(i + 1).drop_last() =~= ws0.take(i as int));
            assert(ws0.take(i + 1).last() == (id@, w@));
        }
        let ghost evs = events_view(events@);
        let fire = !w.is_triggered && now >= w.end_time;
        let new_w = if fire {
            let results = data_of(&w.records);
            events.push(StreamEvent::WindowTrigger { stream_name: name.to_owned(), window_id: id.clone(), results });
            proof {
                assert(events_view(events@) =~= evs.push(EventView::WindowTrigger(name@, id@, record_data(w@.records))));
            }
            WindowState {
                window_type: w.window_type,
                records: w.records,
                start_time: w.start_time,
                end_time: w.end_time,
                is_triggered: true,
                last_trigger_time: Some(now),
            }
        } else {
            w
        };
        let ghost ov = windows_view(out@);
        out.push((id, new_w));
        proof {
            assert(windows_view(out@) =~= ov.push(f(ws0[i as int])));
            assert(ws0.take(i + 1).map_values(f) =~= ws0.take(i as int).map_values(f).push(f(ws0[i as int])));
            assert(events_view(events@) =~= ev0 + window_events(name@, ws0.take(i + 1), now));
        }
        i = i + 1;
    }
    proof {
        assert(ws0.take(n as int) =~= ws0);
    }
    *windows = out;
}

impl StreamProcessor {
    /// No streams.
    pub fn new() -> (p: Self)
        ensures
            p@ == Map::<Seq<char>, StateView>::empty(),
    {
        let p = StreamProcessor { streams: StrMap::new() };
        assert(p@ =~= Map::<Seq<char>, StateView>::empty());
        p
    }

    /// Registers a stream, replacing one of the same name.
    pub fn register_stream(&mut self, stream_def: StreamDef) -> (r: Result<(), String>)
        ensures
            r is Ok,
            final(self)@ == old(self)@.insert(stream_def.name@, fresh_stream(stream_def)),
    {
        let ghost def = stream_def;
        let state = StreamState {
            name: stream_def.name.clone(),
            topic: stream_def.topic,
            schema: stream_def.schema,
            buffer: VecDeque::with_capacity(1000),
            windows: Vec::new(),
            watermark: None,
            config: StreamConfig::default(),
        };
        proof {
            assert(records_view(state.buffer@) =~= Seq::<RecordView>::empty());
            assert(windows_view(state.windows@) =~= Seq::<(Seq<char>, WindowView)>::empty());
            assert(state@ == fresh_stream(def));
        }
        self.streams.insert(stream_def.name, state);
        proof {
            assert(self@ =~= old(self)@.insert(def.name@, fresh_stream(def)));
        }
        Ok(())
    }

    /// A record arrives at `now` (milliseconds since the epoch): it is
    /// appended, the expired records are dropped, the watermark advances
    /// to its event time, and the due windows fire. Gives the events to
    /// publish, in order.
    pub fn ingest(&mut self, stream_name: &str, record: StreamRecord, now: u64) -> (r: Result<Vec<StreamEvent>, String>)
        requires
            old(self)@.contains_key(stream_name@) ==> cleanup_safe(
                old(self)@[stream_name@].buffer.push(record@),
                now,
                old(self)@[stream_name@].config.retention_ms,
            ),
        ensures
            !old(self)@.contains_key(stream_name@) ==> final(self)@ == old(self)@
                && (r matches Err(e) && e@ == not_found(stream_name@)),
            old(self)@.contains_key(stream_name@) ==> {
                let s = old(self)@[stream_name@];
                &&& final(self)@ == old(self)@.insert(stream_name@, ingested(s, record@, now))
                &&& r matches Ok(es) && events_view(es@) == ingest_events(stream_name@, s, record@, now)
            },
    {
        let ghost old_map = self.streams.spec_map();
        let mut st = match self.streams.remove(stream_name) {
            Some(st) => st,
            None => {
                proof {
                    assert(self@ =~= old(self)@);
                }
                return Err(not_found_message(stream_name));
            },
        };
        let ghost s = st@;
        assert(s == old(self)@[stream_name@]);
        let copy = clone_record(&record);
        st.buffer.push_back(record);
        proof {
            assert(records_view(st.buffer@) =~= s.buffer.push(copy@));
        }
        drop_expired_records(&mut st.buffer, now, st.config.retention_ms);
        let mut events: Vec<StreamEvent> = Vec::new();
        if let Some(t) = copy.event_time {
            let cur = match st.watermark {
                Some(w) => w,
                None => 0,
            };
            if t > cur {
                st.watermark = Some(t);
                events.push(StreamEvent::Watermark { stream_name: stream_name.to_owned(), watermark: t });
            } else {
                st.watermark = Some(cur);
            }
        }
        events.push(StreamEvent::Record { stream_name: stream_name.to_owned(), record: copy });
        let ghost ev1 = events_view(events@);
        proof {
            let marks = match copy@.event_time {
                Some(t) => if t > watermark_value(s.watermark) { seq![EventView::Watermark(stream_name@, t)] } else { Seq::<EventView>::empty() },
                None => Seq::<EventView>::empty(),
            };
            assert(ev1 =~= marks + seq![EventView::Record(stream_name@, copy@)]);
        }
        fire_windows(stream_name, &mut st.windows, now, &mut events);
        proof {
            assert(st@ == ingested(s, copy@, now));
            assert(events_view(events@) =~= ingest_events(stream_name@, s, copy@, now));
        }
        self.streams.insert(stream_name.to_owned(), st);
        proof {
            assert(self@ =~= old(self)@.insert(stream_name@, ingested(s, copy@, now)));
        }
        Ok(events)
    }

    /// Whether dropping expired records when `record` arrives at `now`
    /// meets no record dated after `now` (see [`StreamProcessor::ingest`]).
    pub fn ingest_is_safe(&self, stream_name: &str, record: &StreamRecord, now: u64) -> (b: bool)
        ensures
            b == (self@.contains_key(stream_name@) ==> cleanup_safe(
                self@[stream_name@].buffer.push(record@),
                now,
                self@[stream_name@].config.retention_ms,
            )),
    {
        let st = match self.streams.get(stream_name) {
            Some(st) => st,
            None => return true,
        };
        let retention = st.config.retention_ms;
        let ghost all = records_view(st.buffer@).push(record@);
        assert(self@[stream_name@] == st@);
        assert(self@.contains_key(stream_name@));
        let n = st.buffer.len();
        let mut i: usize = 0;
        assert(all.skip(0) =~= all);
        while i < n
            invariant
                n == st.buffer@.len(),
                i <= n,
                all == records_view(st.buffer@).push(record@),
                self@.contains_key(stream_name@),
                all == self@[stream_name@].buffer.push(record@),
                retention == self@[stream_name@].config.retention_ms,
                cleanup_safe(all, now, retention) == cleanup_safe(all.skip(i as int), now, retention),
            decreases n - i,
        {
            let t = time_of(&st.buffer[i]);
            proof {
                assert(all[i as int] == st.buffer@[i as int]@);
                assert(all.skip(i as int)[0] == all[i as int]);
                assert(all.skip(i as int).drop_first() =~= all.skip(i + 1));
            }
            if t > now {
                return false;
            }
            if now - t <= retention {
                return true;
            }
            i = i + 1;
        }
        let t = time_of(record);
        proof {
            assert(all[n as int] == record@);
            assert(all.skip(n as int)[0] == record@);
            assert(all.skip(n as int).drop_first() =~= Seq::<RecordView>::empty());
            assert(cleanup_safe(all.skip(n as int).drop_first(), now, retention));
        }
        t <= now
    }

    /// Milliseconds in one of `unit` (see [`unit_ms`]).
    pub fn duration_multiplier(unit: &str) -> (m: u64)
        ensures
            m == unit_ms(unit@),
    {
        let u = String::from_str(unit);
        if u.eq(&String::from_str("s")) {
            1000
        } else if u.eq(&String::from_str("m")) {
            60000
        } else if u.eq(&String::from_str("h")) {
            3600000
        } else if u.eq(&String::from_str("d")) {
            86400000
        } else {
            1000
        }
    }

    /// The records a query of stream `stream_name` reads at `now`: with a
    /// window, those whose time lies in the window's duration up to `now`;
    /// else the whole buffer.
    pub fn query_records(&self, stream_name: &str, window: &Option<StreamWindowSpec>, now: u64)
        -> (r: Result<Vec<StreamRecord>, String>)
        requires
            self@.contains_key(stream_name@) && window is Some ==> window->0.duration.value * unit_ms(
                window->0.duration.unit@,
            ) <= now,
        ensures
            !self@.contains_key(stream_name@) ==> (r matches Err(e) && e@ == not_found(stream_name@)),
            self@.contains_key(stream_name@) ==> (r matches Ok(rs) && records_view(rs@) == match window {
                Some(w) => in_window(
                    self@[stream_name@].buffer,
                    (now - w.duration.value * unit_ms(w.duration.unit@)) as u64,
                    now,
                ),
                None => self@[stream_name@].buffer,
            }),
    {
        let st = match self.streams.get(stream_name) {
            Some(st) => st,
            None => return Err(not_found_message(stream_name)),
        };
        let ghost buf = records_view(st.buffer@);
        assert(buf == self@[stream_name@].buffer);
        let (start, end) = match window {
            Some(w) => {
                let m = Self::duration_multiplier(w.duration.unit.as_str());
                (now - w.duration.value * m, now)
            },
            None => (0, u64::MAX),
        };
        let ghost pred = |r: RecordView| start <= record_time(r) <= end;
        let mut out: Vec<StreamRecord> = Vec::new();
        let mut i: usize = 0;
        while i < st.buffer.len()
            invariant
                i <= st.buffer@.len(),
                buf == records_view(st.buffer@),
                pred == (|r: RecordView| start <= record_time(r) <= end),
                records_view(out@) == buf.take(i as int).filter(pred),
            decreases st.buffer@.len() - i,
        {
            let t = time_of(&st.buffer[i]);
            proof {
                assert(buf.take(i + 1).drop_last() =~= buf.take(i as int));
                assert(buf.take(i + 1).last() == st.buffer@[i as int]@);
                reveal_with_fuel(Seq::filter, 1);
            }
            if start <= t && t <= end {
                let ghost ov = records_view(out@);
                out.push(clone_record(&st.buffer[i]));
                proof {
                    assert(records_view(out@) =~= ov.push(st.buffer@[i as int]@));
                }
            }
            i = i + 1;
        }
        proof {
            assert(buf.take(buf.len() as int) =~= buf);
            if window is None {
                assert forall|k: int| 0 <= k < buf.len() implies pred(buf[k]) by {}
                lemma_filter_all(buf, pred);
            }
        }
        Ok(out)
    }

    /// Counters of stream `stream_name`, where registered.
    pub fn get_stream_stats(&self, stream_name: &str) -> (r: Option<StreamStats>)
        ensures
            match r {
                Some(st) => {
                    let s = self@[stream_name@];
                    &&& self@.contains_key(stream_name@)
                    &&& st.name@ == s.name
                    &&& st.record_count == s.buffer.len()
                    &&& st.window_count == s.windows.len()
                    &&& st.watermark == watermark_value(s.watermark)
                },
                None => !self@.contains_key(stream_name@),
            },
    {
        match self.streams.get(stream_name) {
            Some(st) => Some(StreamStats {
                name: st.name.clone(),
                record_count: st.buffer.len(),
                window_count: st.windows.len(),
                watermark: match st.watermark {
                    Some(w) => w,
                    None => 0,
                },
            }),
            None => None,
        }
    }
}

/// The watermark never goes back: after any arrival it is at least what it
/// was.
pub proof fn law_watermark_monotone(s: StateView, rec: RecordView, now: u64)
    ensures
        watermark_value(ingested(s, rec, now).watermark) >= watermark_value(s.watermark),
        rec.event_time matches Some(t) ==> watermark_value(ingested(s, rec, now).watermark) >= t,
{
}

/// Retention drops a prefix of the buffer, and what it keeps starts with
/// a record that is not older than the retention.
pub proof fn law_retention_drops_prefix(buf: Seq<RecordView>, now: u64, retention: u64)
    ensures
        exists|k: int| 0 <= k <= buf.len() && drop_expired(buf, now, retention) == buf.skip(k),
        ({
            let kept = drop_expired(buf, now, retention);
            kept.len() > 0 ==> !(record_time(kept[0]) <= now && now - record_time(kept[0]) > retention)
        }),
    decreases buf.len(),
{
    if buf.len() > 0 && record_time(buf[0]) <= now && now - record_time(buf[0]) > retention {
        law_retention_drops_prefix(buf.drop_first(), now, retention);
        let k = choose|k: int| 0 <= k <= buf.drop_first().len()
            && drop_expired(buf.drop_first(), now, retention) == buf.drop_first().skip(k);
        assert(buf.drop_first().skip(k) =~= buf.skip(k + 1));
    } else {
        assert(buf.skip(0) =~= buf);
    }
}

/// A window fires at most once: once fired, later arrivals leave it as it
/// is.
pub proof fn law_window_fires_once(w: WindowView, t1: u64, t2: u64)
    ensures
        fires(w, t1) ==> after_firing(after_firing(w, t1), t2) == after_firing(w, t1),
        fires(w, t1) ==> !fires(after_firing(w, t1), t2),
{
}

/// A filter that keeps every element keeps the sequence.
proof fn lemma_filter_all(s: Seq<RecordView>, pred: spec_fn(RecordView) -> bool)
    requires
        forall|k: int| 0 <= k < s.len() ==> pred(s[k]),
    ensures
        s.filter(pred) == s,
    decreases s.len(),
{
    reveal_with_fuel(Seq::filter, 1);
    if s.len() > 0 {
        lemma_filter_all(s.drop_last(), pred);
        assert(s.drop_last().push(s.last()) =~= s);
    } else {
        assert(s.filter(pred) =~= s);
    }
}

} // verus!
