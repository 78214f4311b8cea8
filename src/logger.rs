use vstd::prelude::*;
use crate::ecs::{event_members, get_timestamp, rfc3339_text, Event, Level, LogRecord, Timestamp};
use crate::extra_fields::{merge_extra_fields, with_extra_fields, ExtraFields};
use crate::json::{no_newline, render_members, write_map};

verus! {

/// The standard error stream, the default sink.
#[verifier::external_type_specification]
#[verifier::external_body]
pub struct ExStderr(std::io::Stderr);

/// The standard output stream.
#[verifier::external_type_specification]
#[verifier::external_body]
pub struct ExStdout(std::io::Stdout);

/// Relies on `std::io::stderr`: a handle to the standard error stream.
#[verifier::external_body]
fn stderr() -> std::io::Stderr {
    std::io::stderr()
}

/// Relies on `std::io::stdout`: a handle to the standard output stream.
#[verifier::external_body]
fn stdout() -> std::io::Stdout {
    std::io::stdout()
}

/// The rank of a level as the `log` crate counts it: 1 for ERROR up to 5 for
/// TRACE.
pub open spec fn severity(l: Level) -> int {
    match l {
        Level::Error => 1,
        Level::Warn => 2,
        Level::Info => 3,
        Level::Debug => 4,
        Level::Trace => 5,
    }
}

/// Whether filter directives in env_logger's syntax let an event of the
/// given severity and target through.
pub uninterp spec fn filter_accepts(directives: Seq<char>, level: int, target: Seq<char>) -> bool;

/// A character that can only stand in a module name.
pub open spec fn is_name_char(c: char) -> bool {
    ('a' <= c <= 'z') || ('A' <= c <= 'Z') || ('0' <= c <= '9') || c == '_' || c == ':'
}

/// Some `=` has no name character before it in its comma-separated part, so
/// that the directive may name the empty module. env_logger orders such a
/// directive and the global one by the walk of a randomly seeded map, which
/// leaves the answer open.
pub open spec fn empty_name_directive(d: Seq<char>) -> bool {
    exists|i: int|
        0 <= i < d.len() && #[trigger] d[i] == '=' && forall|j: int|
            0 <= j < i && (forall|m: int| j <= m < i ==> d[m] != ',') ==> !is_name_char(
                #[trigger] d[j],
            )
}

/// The directives that leave env_logger with its default: ERROR only.
pub open spec fn is_default_filter(d: Seq<char>) -> bool {
    d == DEFAULT_FILTER@ || d.len() == 0
}

/// What the directives `d` answer for `level` and `target`, where that does
/// not depend on how env_logger's map happens to be walked.
pub open spec fn filter_answer(d: Seq<char>, level: Level, target: Seq<char>) -> Option<bool> {
    if is_default_filter(d) {
        Some(level == Level::Error)
    } else if !empty_name_directive(d) {
        Some(filter_accepts(d, severity(level), target))
    } else {
        None
    }
}

/// An env_logger filter.
#[verifier::external_type_specification]
#[verifier::external_body]
pub struct ExFilter(env_logger::filter::Filter);

/// A filter built once from its directives, with the directives it was built
/// from. Only `compile_filter` makes one.
pub struct CompiledFilter {
    directives: String,
    filter: env_logger::filter::Filter,
}

impl CompiledFilter {
    /// The directives the filter was built from.
    pub closed spec fn directives(&self) -> Seq<char> {
        self.directives@
    }

    /// The directives the filter was built from.
    pub fn text(&self) -> (r: &String)
        ensures
            r@ == self.directives(),
    {
        &self.directives
    }
}

/// Relies on env_logger's `filter::Builder::parse` and `build`: the filter
/// for `directives`. Directives that env_logger cannot read are skipped, with
/// a warning on standard error, once.
#[verifier::external_body]
fn compile_filter(directives: &str) -> (r: CompiledFilter)
    ensures
        r.directives() == directives@,
{
    let filter = env_logger::filter::Builder::new().parse(directives).build();
    CompiledFilter { directives: directives.to_owned(), filter }
}

/// Relies on env_logger's `Filter::enabled` on a filter that `compile_filter`
/// built. It takes the longest directive name that starts `target` (or the
/// global directive) and compares `level` with it. Distinct names of one
/// length cannot both start `target`, so the answer depends on the
/// directives, the level and the target alone, unless a directive names the
/// empty module. With no directive left after parsing, env_logger keeps ERROR
/// only, as `error` does.
#[verifier::external_body]
fn filter_enabled(f: &CompiledFilter, level: Level, target: &str) -> (r: bool)
    ensures
        !empty_name_directive(f.directives()) ==> r == filter_accepts(
            f.directives(),
            severity(level),
            target@,
        ),
        is_default_filter(f.directives()) ==> (r <==> level == Level::Error),
{
    let level = match level {
        Level::Error => log::Level::Error,
        Level::Warn => log::Level::Warn,
        Level::Info => log::Level::Info,
        Level::Debug => log::Level::Debug,
        Level::Trace => log::Level::Trace,
    };
    f.filter.enabled(&log::Metadata::builder().level(level).target(target).build())
}

/// The directives a logger starts with: ERROR only.
pub const DEFAULT_FILTER: &'static str = "error";

/// Configures a `Logger`: its filter directives and its sink.
pub struct Builder<W> {
    pub filter: String,
    pub writer: W,
}

impl Builder<std::io::Stderr> {
    /// A builder with the default filter that writes to standard error.
    pub fn new() -> (r: Builder<std::io::Stderr>)
        ensures
            r.filter@ == DEFAULT_FILTER@,
    {
        Builder { filter: DEFAULT_FILTER.to_owned(), writer: stderr() }
    }
}

impl Default for Builder<std::io::Stderr> {
    fn default() -> (r: Builder<std::io::Stderr>)
        ensures
            r.filter@ == DEFAULT_FILTER@,
    {
        Builder::new()
    }
}

impl<W> Builder<W> {
    /// Sets the filter directives.
    pub fn filter(self, filter: &str) -> (r: Builder<W>)
        ensures
            r.filter@ == filter@,
            r.writer == self.writer,
    {
        Builder { filter: filter.to_owned(), writer: self.writer }
    }

    /// Sets the sink.
    pub fn writer<V>(self, writer: V) -> (r: Builder<V>)
        ensures
            r.filter == self.filter,
            r.writer == writer,
    {
        Builder { filter: self.filter, writer }
    }

    /// Writes to standard output.
    pub fn writer_stdout(self) -> (r: Builder<std::io::Stdout>)
        ensures
            r.filter == self.filter,
    {
        self.writer(stdout())
    }

    /// Writes to standard error.
    pub fn writer_stderr(self) -> (r: Builder<std::io::Stderr>)
        ensures
            r.filter == self.filter,
    {
        self.writer(stderr())
    }

    /// The logger that this builder describes.
    pub fn build(self) -> (r: Logger<W>)
        ensures
            r.filter.directives() == self.filter@,
            r.writer == self.writer,
    {
        Logger { filter: compile_filter(self.filter.as_str()), writer: self.writer }
    }
}

/// A filter and the sink that accepted events go to.
pub struct Logger<W> {
    pub filter: CompiledFilter,
    pub writer: W,
}

/// The line written for the event `e` whose instant reads `timestamp`.
pub open spec fn event_line(e: Event, timestamp: Seq<char>, extra: ExtraFields) -> Seq<char> {
    "{"@ + render_members(with_extra_fields(extra, event_members(e, timestamp))) + "}"@ + "\n"@
}

/// `line` is the line for `record` logged at the instant `now`.
pub open spec fn is_line_for(line: Seq<char>, record: LogRecord, now: Timestamp, extra: ExtraFields) -> bool {
    forall|e: Event| #[trigger]
        crate::ecs::event_of(e, now, record) ==> line == event_line(
            e,
            rfc3339_text(now.secs as int, now.nanos as int)->Some_0,
            extra,
        )
}

/// Text that ends with its only line break.
pub open spec fn one_line(s: Seq<char>) -> bool {
    s.len() > 0 && s.last() == '\n' && no_newline(s.drop_last())
}

/// The line for `event`, with `timestamp` as the text of its instant and the
/// extra fields merged in: one JSON object and a newline.
pub fn format_event(event: &Event, timestamp: String, extra: &ExtraFields) -> (r: String)
    ensures
        r@ == event_line(*event, timestamp@, *extra),
        one_line(r@),
{
    let doc = merge_extra_fields(extra, crate::ecs::event_document(event, timestamp));
    let mut line = String::new();
    write_map(&doc, &mut line);
    let ghost body = line@;
    line.append("\n");
    proof {
        reveal_strlit("\n");
        assert(line@.drop_last() =~= body);
    }
    assert(line@ =~= event_line(*event, timestamp@, *extra));
    line
}

/// The line for `event`, or `None` where chrono cannot write its instant.
pub fn format_line(event: &Event, extra: &ExtraFields) -> (r: Option<String>)
    ensures
        r is Some <==> rfc3339_text(event.timestamp.secs as int, event.timestamp.nanos as int) is Some,
        r matches Some(line) ==> line@ == event_line(
            *event,
            rfc3339_text(event.timestamp.secs as int, event.timestamp.nanos as int)->Some_0,
            *extra,
        ),
        r matches Some(line) ==> one_line(line@),
{
    match crate::ecs::rfc3339_text_of(&event.timestamp) {
        Some(t) => Some(format_event(event, t, extra)),
        None => None,
    }
}

impl<W> Logger<W> {
    /// Whether the filter lets an event of `level` and `target` through.
    pub fn enabled(&self, level: Level, target: &str) -> (r: bool)
        ensures
            filter_answer(self.filter.directives(), level, target@) matches Some(b) ==> r == b,
    {
        filter_enabled(&self.filter, level, target)
    }

    /// The line to write for `record` logged at the instant `now`: `None`
    /// where the filter holds it back, or where chrono cannot write `now`.
    pub fn log_at(&self, record: &LogRecord, now: Timestamp, extra: &ExtraFields) -> (r: Option<
        String,
    >)
        ensures
            filter_answer(self.filter.directives(), record.level, record.target@) matches Some(b)
                ==> (r is Some <==> b && rfc3339_text(now.secs as int, now.nanos as int) is Some),
            r is Some ==> rfc3339_text(now.secs as int, now.nanos as int) is Some,
            r matches Some(line) ==> is_line_for(line@, *record, now, *extra),
            r matches Some(line) ==> one_line(line@),
    {
        if !self.enabled(record.level, record.target.as_str()) {
            return None;
        }
        let event = Event::new(now, record);
        let r = format_line(&event, extra);
        proof {
            assert forall|e: Event| #[trigger] crate::ecs::event_of(e, now, *record) implies event_members(
                e,
                rfc3339_text(now.secs as int, now.nanos as int)->Some_0,
            ) == event_members(event, rfc3339_text(now.secs as int, now.nanos as int)->Some_0) by {
                crate::ecs::lemma_event_of_unique(e, event, now, *record);
            }
        }
        r
    }

    /// The line to write for `record`, logged now: `None` exactly where the
    /// filter holds it back.
    pub fn log(&self, record: &LogRecord, extra: &ExtraFields) -> (r: Option<String>)
        ensures
            filter_answer(self.filter.directives(), record.level, record.target@) matches Some(b)
                ==> (r is Some <==> b),
            r matches Some(line) ==> exists|now: Timestamp| #[trigger]
                is_line_for(line@, *record, now, *extra),
            r matches Some(line) ==> one_line(line@),
    {
        let now = get_timestamp();
        let r = self.log_at(record, now, extra);
        proof {
            if r is Some {
                assert(is_line_for(r->Some_0@, *record, now, *extra));
            }
        }
        r
    }

    /// Nothing is buffered, so there is nothing to flush.
    pub fn flush(&self) {
    }
}

} // verus!
