use vstd::prelude::*;
use vstd::utf8::*;
use vstd::string::StringSliceAdditionalSpecFns;
use crate::json::{decimal, lemma_index_of, member, Json, JsonMap, JsonNumber, JsonValue, Members};

verus! {

/// The schema revision that every event names.
pub const ECS_VERSION: &'static str = "1.12.1";

/// Severity of a log event, from the most severe to the least.
#[derive(Clone, Copy, PartialEq, Eq, Structural, Debug)]
pub enum Level {
    Error,
    Warn,
    Info,
    Debug,
    Trace,
}

/// The upper-case name of a level.
pub open spec fn level_name(l: Level) -> Seq<char> {
    match l {
        Level::Error => "ERROR"@,
        Level::Warn => "WARN"@,
        Level::Info => "INFO"@,
        Level::Debug => "DEBUG"@,
        Level::Trace => "TRACE"@,
    }
}

impl Level {
    /// The upper-case name of the level.
    pub fn as_str(&self) -> (r: &'static str)
        ensures
            r@ == level_name(*self),
    {
        match self {
            Level::Error => "ERROR",
            Level::Warn => "WARN",
            Level::Info => "INFO",
            Level::Debug => "DEBUG",
            Level::Trace => "TRACE",
        }
    }
}

/// An instant in UTC: whole seconds since the Unix epoch and the nanoseconds
/// past them.
#[derive(Clone, Copy, PartialEq, Eq, Structural, Debug)]
pub struct Timestamp {
    pub secs: i64,
    pub nanos: u32,
}

/// What a call site hands over for one log event.
pub struct LogRecord {
    pub level: Level,
    pub message: String,
    pub target: String,
    pub file: Option<String>,
    pub line: Option<u32>,
    pub module: Option<String>,
}

/// One log event in the shape of the Elastic Common Schema.
pub struct Event {
    pub timestamp: Timestamp,
    pub log_level: String,
    pub message: String,
    pub ecs_version: String,
    pub log_origin: LogOrigin,
}

/// Where an event was logged from.
pub struct LogOrigin {
    pub file: LogOriginFile,
    pub rust: LogOriginRust,
}

/// The source file of an event: its line and its base name.
pub struct LogOriginFile {
    pub line: Option<u32>,
    pub name: Option<String>,
}

/// The target, module path and full file path of an event.
pub struct LogOriginRust {
    pub target: String,
    pub module: Option<String>,
    pub file_path: Option<String>,
}

/// Whether a byte separates path segments, in either convention.
pub open spec fn is_separator(b: u8) -> bool {
    b == 47 || b == 92
}

/// The index of the last separator in `p`, or -1 when there is none.
pub open spec fn last_separator(p: Seq<u8>) -> int
    decreases p.len(),
{
    if p.len() == 0 {
        -1
    } else if is_separator(p.last()) {
        p.len() - 1
    } else {
        last_separator(p.drop_last())
    }
}

/// The bytes of the final segment of a path.
pub open spec fn final_segment(p: Seq<u8>) -> Seq<u8> {
    p.subrange(last_separator(p) + 1, p.len() as int)
}

/// The base name of a path: its final segment, where that is not empty.
pub open spec fn base_name(path: Seq<char>) -> Option<Seq<char>> {
    let seg = final_segment(encode_utf8(path));
    if seg.len() == 0 {
        None
    } else {
        Some(decode_utf8(seg))
    }
}

proof fn lemma_last_separator(p: Seq<u8>)
    ensures
        -1 <= last_separator(p) < p.len(),
        last_separator(p) >= 0 ==> is_separator(p[last_separator(p)]),
        forall|j: int| last_separator(p) < j < p.len() ==> !is_separator(#[trigger] p[j]),
    decreases p.len(),
{
    if p.len() > 0 {
        lemma_last_separator(p.drop_last());
        assert(forall|j: int| 0 <= j < p.len() - 1 ==> p.drop_last()[j] == #[trigger] p[j]);
    }
}

/// The base name of a path, split at the last `/` or `\`.
pub fn file_name(path: &str) -> (r: Option<String>)
    ensures
        r matches Some(n) ==> base_name(path@) == Some(n@),
        r is None ==> base_name(path@) is None,
{
    let bytes = path.as_bytes();
    let ghost p = path.spec_bytes();
    let mut i: usize = bytes.len();
    while i > 0 && bytes[i - 1] != 47u8 && bytes[i - 1] != 92u8
        invariant
            i <= bytes.len(),
            bytes@ == p,
            forall|j: int| i <= j < p.len() ==> !is_separator(#[trigger] p[j]),
        decreases i,
    {
        i = i - 1;
    }
    proof {
        lemma_last_separator(p);
        encode_utf8_valid_utf8(path@);
    }
    if i == bytes.len() {
        assert(final_segment(p).len() == 0);
        return None;
    }
    let ghost k = i as int;
    assert(last_separator(p) + 1 == k);
    let rest: &str = if i == 0 {
        path
    } else {
        proof {
            is_char_boundary_iff_not_is_continuation_byte(p, k - 1);
        }
        let (_, tail) = path.split_at(i - 1);
        let ghost t = tail.spec_bytes();
        assert(t =~= p.subrange(k - 1, p.len() as int));
        proof {
            valid_utf8_split(p, k - 1);
            assert(valid_utf8(t));
            assert(t[0] == p[k - 1]);
            assert(length_of_first_scalar(t) == 1);
            assert(is_char_boundary(pop_first_scalar(t), 0));
            assert(is_char_boundary(t, 1));
        }
        let (_, last) = tail.split_at(1);
        last
    };
    assert(rest.spec_bytes() =~= final_segment(p));
    let name = rest.to_owned();
    proof {
        encode_utf8_decode_utf8(rest@);
    }
    Some(name)
}

/// The RFC 3339 text of an instant, with a `Z` suffix and as many digits of
/// the fraction of a second as it needs (none, 3, 6 or 9); `None` where the
/// instant lies outside chrono's range.
pub uninterp spec fn rfc3339_text(secs: int, nanos: int) -> Option<Seq<char>>;

/// Relies on chrono's `DateTime::<Utc>::from_timestamp`, which gives `None`
/// outside chrono's range of dates, and `to_rfc3339_opts` with
/// `SecondsFormat::AutoSi` and `Z`, the form in which chrono serializes an
/// instant: the text depends on the two numbers alone.
#[verifier::external_body]
fn rfc3339(secs: i64, nanos: u32) -> (r: Option<String>)
    ensures
        r is Some <==> rfc3339_text(secs as int, nanos as int) is Some,
        r matches Some(t) ==> rfc3339_text(secs as int, nanos as int) == Some(t@),
{
    chrono::DateTime::<chrono::Utc>::from_timestamp(secs, nanos).map(
        |d| d.to_rfc3339_opts(chrono::SecondsFormat::AutoSi, true),
    )
}

/// Relies on chrono's `Utc::now`: the current instant, split into seconds
/// and nanoseconds. `Utc::now` builds its value with `from_timestamp` from the
/// system clock's seconds and sub-second nanoseconds, so the nanoseconds stay
/// under one second and chrono can write the instant back.
#[verifier::external_body]
fn now() -> (r: Timestamp)
    ensures
        r.nanos < 1_000_000_000,
        rfc3339_text(r.secs as int, r.nanos as int) is Some,
{
    let t = chrono::Utc::now();
    Timestamp { secs: t.timestamp(), nanos: t.timestamp_subsec_nanos() }
}

/// The current instant.
pub fn get_timestamp() -> (r: Timestamp)
    ensures
        r.nanos < 1_000_000_000,
        rfc3339_text(r.secs as int, r.nanos as int) is Some,
{
    now()
}

/// A copy of an optional string.
pub fn copy_opt(o: &Option<String>) -> (r: Option<String>)
    ensures
        r == *o,
{
    match o {
        Some(s) => Some(s.clone()),
        None => None,
    }
}

/// `name` is the base name of `file`, where there is one.
pub open spec fn name_of_file(name: Option<String>, file: Option<String>) -> bool {
    match file {
        Some(f) => match name {
            Some(n) => base_name(f@) == Some(n@),
            None => base_name(f@) is None,
        },
        None => name is None,
    }
}

/// The event that `record` gives at the instant `timestamp`.
pub open spec fn event_of(e: Event, timestamp: Timestamp, record: LogRecord) -> bool {
    &&& e.timestamp == timestamp
    &&& e.log_level@ == level_name(record.level)
    &&& e.message@ == record.message@
    &&& e.ecs_version@ == ECS_VERSION@
    &&& e.log_origin.file.line == record.line
    &&& name_of_file(e.log_origin.file.name, record.file)
    &&& e.log_origin.rust.target@ == record.target@
    &&& e.log_origin.rust.module == record.module
    &&& e.log_origin.rust.file_path == record.file
}

/// Two events of one record at one instant have the same document.
pub proof fn lemma_event_of_unique(e1: Event, e2: Event, timestamp: Timestamp, record: LogRecord)
    requires
        event_of(e1, timestamp, record),
        event_of(e2, timestamp, record),
    ensures
        forall|t: Seq<char>| #[trigger] event_members(e1, t) == event_members(e2, t),
{
    assert(file_members(e1.log_origin.file) =~= file_members(e2.log_origin.file));
    assert(rust_members(e1.log_origin.rust) =~= rust_members(e2.log_origin.rust));
}

impl Event {
    /// The event for `record`, stamped with `timestamp`.
    pub fn new(timestamp: Timestamp, record: &LogRecord) -> (r: Event)
        ensures
            event_of(r, timestamp, *record),
    {
        let name = match &record.file {
            Some(f) => file_name(f.as_str()),
            None => None,
        };
        Event {
            timestamp,
            log_level: record.level.as_str().to_owned(),
            message: record.message.clone(),
            ecs_version: ECS_VERSION.to_owned(),
            log_origin: LogOrigin {
                file: LogOriginFile { line: record.line, name },
                rust: LogOriginRust {
                    target: record.target.clone(),
                    module: copy_opt(&record.module),
                    file_path: copy_opt(&record.file),
                },
            },
        }
    }

    /// The event for `record`, stamped with the current instant.
    pub fn from_log_record(record: &LogRecord) -> (r: Event)
        ensures
            event_of(r, r.timestamp, *record),
            r.timestamp.nanos < 1_000_000_000,
            rfc3339_text(r.timestamp.secs as int, r.timestamp.nanos as int) is Some,
    {
        Event::new(get_timestamp(), record)
    }
}

/// A member `name: s` where `s` is there, none where it is not.
pub open spec fn optional_str(name: Seq<char>, s: Option<String>) -> Members {
    match s {
        Some(v) => seq![(name, JsonValue::Str(v@))],
        None => seq![],
    }
}

/// The members of `log.origin.file`.
pub open spec fn file_members(f: LogOriginFile) -> Members {
    (match f.line {
        Some(l) => seq![("line"@, JsonValue::Number(decimal(l as nat)))],
        None => seq![],
    }) + optional_str("name"@, f.name)
}

/// The members of `log.origin.rust`.
pub open spec fn rust_members(r: LogOriginRust) -> Members {
    seq![("target"@, JsonValue::Str(r.target@))] + optional_str("module_path"@, r.module)
        + optional_str("file_path"@, r.file_path)
}

/// The members of `log.origin`.
pub open spec fn origin_members(o: LogOrigin) -> Members {
    seq![
        ("file"@, JsonValue::Object(file_members(o.file))),
        ("rust"@, JsonValue::Object(rust_members(o.rust))),
    ]
}

/// The document of an event whose instant reads `timestamp`.
pub open spec fn event_members(e: Event, timestamp: Seq<char>) -> Members {
    seq![
        ("@timestamp"@, JsonValue::Str(timestamp)),
        ("log.level"@, JsonValue::Str(e.log_level@)),
        ("message"@, JsonValue::Str(e.message@)),
        ("ecs.version"@, JsonValue::Str(e.ecs_version@)),
        ("log.origin"@, JsonValue::Object(origin_members(e.log_origin))),
    ]
}

/// Appends `name: s` to `m` where `s` is there.
fn push_optional_str(m: &mut JsonMap, name: &str, s: &Option<String>)
    ensures
        final(m)@ == old(m)@ + optional_str(name@, *s),
{
    if let Some(v) = s {
        m.entries.push((name.to_owned(), Json::Str(v.clone())));
    }
    assert(final(m)@ =~= old(m)@ + optional_str(name@, *s));
}

/// The document of `log.origin`.
fn origin_document(o: &LogOrigin) -> (r: JsonMap)
    ensures
        r@ == origin_members(*o),
{
    let mut file = JsonMap { entries: Vec::new() };
    if let Some(l) = o.file.line {
        file.entries.push(("line".to_owned(), Json::Number(JsonNumber::from_u32(l))));
    }
    push_optional_str(&mut file, "name", &o.file.name);
    assert(file@ =~= file_members(o.file));
    let mut rust = JsonMap { entries: Vec::new() };
    rust.entries.push(("target".to_owned(), Json::Str(o.rust.target.clone())));
    push_optional_str(&mut rust, "module_path", &o.rust.module);
    push_optional_str(&mut rust, "file_path", &o.rust.file_path);
    assert(rust@ =~= rust_members(o.rust));
    let mut r = JsonMap { entries: Vec::new() };
    r.entries.push(("file".to_owned(), Json::Object(file)));
    r.entries.push(("rust".to_owned(), Json::Object(rust)));
    assert(r@ =~= origin_members(*o));
    r
}

/// The document of `e`, with `timestamp` as the text of its instant.
pub fn event_document(e: &Event, timestamp: String) -> (r: JsonMap)
    ensures
        r@ == event_members(*e, timestamp@),
{
    let mut r = JsonMap { entries: Vec::new() };
    r.entries.push(("@timestamp".to_owned(), Json::Str(timestamp)));
    r.entries.push(("log.level".to_owned(), Json::Str(e.log_level.clone())));
    r.entries.push(("message".to_owned(), Json::Str(e.message.clone())));
    r.entries.push(("ecs.version".to_owned(), Json::Str(e.ecs_version.clone())));
    r.entries.push(("log.origin".to_owned(), Json::Object(origin_document(&e.log_origin))));
    assert(r@ =~= event_members(*e, timestamp@));
    r
}

/// The RFC 3339 text of `t`, or `None` outside chrono's range of dates.
pub fn rfc3339_text_of(t: &Timestamp) -> (r: Option<String>)
    ensures
        r is Some <==> rfc3339_text(t.secs as int, t.nanos as int) is Some,
        r matches Some(s) ==> rfc3339_text(t.secs as int, t.nanos as int) == Some(s@),
{
    rfc3339(t.secs, t.nanos)
}

impl Event {
    /// The document of the event, or `None` where chrono cannot write its
    /// instant.
    pub fn to_json(&self) -> (r: Option<JsonMap>)
        ensures
            r is Some <==> rfc3339_text(self.timestamp.secs as int, self.timestamp.nanos as int) is Some,
            r matches Some(m) ==> m@ == event_members(
                *self,
                rfc3339_text(self.timestamp.secs as int, self.timestamp.nanos as int)->Some_0,
            ),
    {
        match rfc3339_text_of(&self.timestamp) {
            Some(t) => Some(event_document(self, t)),
            None => None,
        }
    }
}

/// The names of some members, in order.
pub open spec fn names(m: Members) -> Seq<Seq<char>> {
    m.map_values(|p: (Seq<char>, JsonValue)| p.0)
}

/// `[name]` where `present`, `[]` where not.
pub open spec fn name_if(present: bool, name: Seq<char>) -> Seq<Seq<char>> {
    if present {
        seq![name]
    } else {
        seq![]
    }
}

/// An event's document holds the schema's names and no others: five at the
/// top; under `log.origin`, `file` and `rust`; under `file`, `line` and
/// `name` where the event has them; under `rust`, `target`, then
/// `module_path` and `file_path` where the event has them.
pub proof fn lemma_event_names(e: Event, timestamp: Seq<char>)
    ensures
        names(event_members(e, timestamp)) == seq![
            "@timestamp"@,
            "log.level"@,
            "message"@,
            "ecs.version"@,
            "log.origin"@,
        ],
        names(origin_members(e.log_origin)) == seq!["file"@, "rust"@],
        names(file_members(e.log_origin.file)) == name_if(e.log_origin.file.line is Some, "line"@)
            + name_if(e.log_origin.file.name is Some, "name"@),
        names(rust_members(e.log_origin.rust)) == seq!["target"@] + name_if(
            e.log_origin.rust.module is Some,
            "module_path"@,
        ) + name_if(e.log_origin.rust.file_path is Some, "file_path"@),
{
    assert(names(event_members(e, timestamp)) =~= seq![
        "@timestamp"@,
        "log.level"@,
        "message"@,
        "ecs.version"@,
        "log.origin"@,
    ]);
    assert(names(origin_members(e.log_origin)) =~= seq!["file"@, "rust"@]);
    assert(names(file_members(e.log_origin.file)) =~= name_if(
        e.log_origin.file.line is Some,
        "line"@,
    ) + name_if(e.log_origin.file.name is Some, "name"@));
    assert(names(rust_members(e.log_origin.rust)) =~= seq!["target"@] + name_if(
        e.log_origin.rust.module is Some,
        "module_path"@,
    ) + name_if(e.log_origin.rust.file_path is Some, "file_path"@));
}

/// No value in an event's document is null, at any depth; each optional
/// field that the event has appears under its name with its value.
pub proof fn lemma_event_values(e: Event, timestamp: Seq<char>)
    ensures
        forall|i: int|
            0 <= i < event_members(e, timestamp).len() ==> !(#[trigger] event_members(
                e,
                timestamp,
            )[i].1 is Null),
        forall|i: int|
            0 <= i < origin_members(e.log_origin).len() ==> !(#[trigger] origin_members(
                e.log_origin,
            )[i].1 is Null),
        forall|i: int|
            0 <= i < file_members(e.log_origin.file).len() ==> !(#[trigger] file_members(
                e.log_origin.file,
            )[i].1 is Null),
        forall|i: int|
            0 <= i < rust_members(e.log_origin.rust).len() ==> !(#[trigger] rust_members(
                e.log_origin.rust,
            )[i].1 is Null),
        member(event_members(e, timestamp), "message"@) == Some(JsonValue::Str(e.message@)),
        member(rust_members(e.log_origin.rust), "target"@) == Some(
            JsonValue::Str(e.log_origin.rust.target@),
        ),
        e.log_origin.file.line matches Some(l) ==> member(file_members(e.log_origin.file), "line"@)
            == Some(JsonValue::Number(decimal(l as nat))),
        e.log_origin.file.name matches Some(n) ==> member(file_members(e.log_origin.file), "name"@)
            == Some(JsonValue::Str(n@)),
        e.log_origin.rust.module matches Some(m) ==> member(
            rust_members(e.log_origin.rust),
            "module_path"@,
        ) == Some(JsonValue::Str(m@)),
        e.log_origin.rust.file_path matches Some(p) ==> member(
            rust_members(e.log_origin.rust),
            "file_path"@,
        ) == Some(JsonValue::Str(p@)),
{
    reveal_strlit("@timestamp");
    reveal_strlit("log.level");
    reveal_strlit("message");
    reveal_strlit("line");
    reveal_strlit("name");
    reveal_strlit("target");
    reveal_strlit("module_path");
    reveal_strlit("file_path");
    let f = file_members(e.log_origin.file);
    let r = rust_members(e.log_origin.rust);
    let m = event_members(e, timestamp);
    assert("@timestamp"@.len() == 10 && "log.level"@.len() == 9 && "message"@.len() == 7);
    assert("target"@.len() == 6 && "module_path"@.len() == 11 && "file_path"@.len() == 9);
    assert("line"@.len() == 4 && "name"@[0] == 'n' && "line"@[0] == 'l');
    lemma_first_member(m, 2);
    lemma_first_member(r, 0);
    if e.log_origin.file.line is Some {
        lemma_first_member(f, 0);
    }
    if e.log_origin.file.name is Some {
        lemma_first_member(f, f.len() - 1);
    }
    if e.log_origin.rust.module is Some {
        lemma_first_member(r, 1);
    }
    if e.log_origin.rust.file_path is Some {
        lemma_first_member(r, r.len() - 1);
    }
}

/// A member whose name no earlier member has is what a lookup finds.
proof fn lemma_first_member(m: Members, j: int)
    requires
        0 <= j < m.len(),
        forall|i: int| 0 <= i < j ==> m[i].0 != m[j].0,
    ensures
        member(m, m[j].0) == Some(m[j].1),
{
    lemma_index_of(m, m[j].0);
}

} // verus!
