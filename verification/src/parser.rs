//! Classification of one line of the child's standard output.
//!
//! A line is a port announcement, a shutdown acknowledgement or diagnostic
//! text. The three rules are tried in that order, and no line is an error:
//! an announcement whose number cannot be read is handed back as
//! [`ParsedLine::Unrecognized`].

use crate::text::{
    after_last, contains, find_last, from_chars, has, lemma_last_occurrence_unique,
    lemma_remove_all_absent, occurs_at,
    parse_u16, read_u16, remove_all, to_chars, trim, trimmed, without,
};
use vstd::prelude::*;
use vstd::slice::slice_subrange;
use vstd::string::StringExecFns;

verus! {

/// Severity that a diagnostic line carries.
#[derive(Clone, Copy, Debug, PartialEq, Eq, Structural)]
pub enum Level {
    Error,
    Critical,
    Warning,
    Info,
    Debug,
}

/// What one line of the child's output means.
#[derive(Debug, PartialEq, Eq)]
pub enum ParsedLine {
    /// The child listens on this port.
    PortAnnouncement(u16),
    /// The child has finished its cooperative shutdown.
    ShutdownAck,
    /// Free text at a severity, with the severity tag taken out and the
    /// surrounding whitespace trimmed.
    Diagnostic(Level, String),
    /// The line carries the port marker but no readable port; the text is the
    /// whole line.
    Unrecognized(String),
}

/// [`ParsedLine`] with its text as a sequence of characters.
pub enum ParsedLineView {
    PortAnnouncement(u16),
    ShutdownAck,
    Diagnostic(Level, Seq<char>),
    Unrecognized(Seq<char>),
}

impl View for ParsedLine {
    type V = ParsedLineView;

    open spec fn view(&self) -> ParsedLineView {
        match self {
            ParsedLine::PortAnnouncement(port) => ParsedLineView::PortAnnouncement(*port),
            ParsedLine::ShutdownAck => ParsedLineView::ShutdownAck,
            ParsedLine::Diagnostic(level, text) => ParsedLineView::Diagnostic(*level, text@),
            ParsedLine::Unrecognized(text) => ParsedLineView::Unrecognized(text@),
        }
    }
}

/// Marker that precedes the port number in an announcement.
pub open spec fn port_marker() -> Seq<char> {
    "ACTUAL_PORT: "@
}

/// Marker of the shutdown acknowledgement.
pub open spec fn shutdown_marker() -> Seq<char> {
    "BACKEND_SHUTDOWN_COMPLETE"@
}

/// The tag that marks a line of the given severity.
pub open spec fn tag(level: Level) -> Seq<char> {
    match level {
        Level::Error => "[ERROR]"@,
        Level::Critical => "[CRITICAL]"@,
        Level::Warning => "[WARNING]"@,
        Level::Info => "[INFO]"@,
        Level::Debug => "[DEBUG]"@,
    }
}

/// The port that a line with the port marker announces: what follows the
/// last marker, trimmed, read as a 16-bit number.
pub open spec fn announced_port(line: Seq<char>) -> Option<u16> {
    parse_u16(trim(after_last(line, port_marker())))
}

/// Severity of a diagnostic line: that of the first tag, in the order error,
/// critical, warning, info, that the line carries; debug when it carries none
/// of them.
pub open spec fn level_of(line: Seq<char>) -> Level {
    if contains(line, tag(Level::Error)) {
        Level::Error
    } else if contains(line, tag(Level::Critical)) {
        Level::Critical
    } else if contains(line, tag(Level::Warning)) {
        Level::Warning
    } else if contains(line, tag(Level::Info)) {
        Level::Info
    } else {
        Level::Debug
    }
}

/// Text of a diagnostic line: the line without the tags of its severity,
/// trimmed. An error or critical line loses both of these tags.
pub open spec fn diagnostic_text(line: Seq<char>) -> Seq<char> {
    match level_of(line) {
        Level::Error | Level::Critical => trim(
            remove_all(remove_all(line, tag(Level::Error)), tag(Level::Critical)),
        ),
        level => trim(remove_all(line, tag(level))),
    }
}

/// Meaning of a line.
pub open spec fn classify_spec(line: Seq<char>) -> ParsedLineView {
    if contains(line, port_marker()) {
        match announced_port(line) {
            Some(port) => ParsedLineView::PortAnnouncement(port),
            None => ParsedLineView::Unrecognized(line),
        }
    } else if contains(line, shutdown_marker()) {
        ParsedLineView::ShutdownAck
    } else {
        ParsedLineView::Diagnostic(level_of(line), diagnostic_text(line))
    }
}

/// A line that carries neither marker nor any tag is debug text: the line
/// itself, trimmed.
pub proof fn lemma_plain_line_is_debug_text(line: Seq<char>)
    requires
        !contains(line, port_marker()),
        !contains(line, shutdown_marker()),
        forall|level: Level| !contains(line, #[trigger] tag(level)),
    ensures
        classify_spec(line) == ParsedLineView::Diagnostic(Level::Debug, trim(line)),
{
    assert(!contains(line, tag(Level::Error)));
    assert(!contains(line, tag(Level::Critical)));
    assert(!contains(line, tag(Level::Warning)));
    assert(!contains(line, tag(Level::Info)));
    lemma_remove_all_absent(line, tag(Level::Debug));
}

/// Classification never fails, and it reports a port only where the line
/// carries the port marker, and the acknowledgement only where it carries
/// the shutdown marker and not the port marker.
pub proof fn lemma_markers_decide(line: Seq<char>)
    ensures
        classify_spec(line) is PortAnnouncement || classify_spec(line) is Unrecognized <==> contains(
            line,
            port_marker(),
        ),
        classify_spec(line) is ShutdownAck <==> !contains(line, port_marker()) && contains(
            line,
            shutdown_marker(),
        ),
        classify_spec(line) matches ParsedLineView::PortAnnouncement(port) ==> announced_port(line)
            == Some(port),
        classify_spec(line) matches ParsedLineView::Unrecognized(text) ==> text == line
            && announced_port(line) is None,
{
}

/// The characters of the tag of a severity.
fn tag_chars(level: Level) -> (chars: Vec<char>)
    ensures
        chars@ == tag(level),
{
    match level {
        Level::Error => to_chars("[ERROR]"),
        Level::Critical => to_chars("[CRITICAL]"),
        Level::Warning => to_chars("[WARNING]"),
        Level::Info => to_chars("[INFO]"),
        Level::Debug => to_chars("[DEBUG]"),
    }
}

/// Severity of a diagnostic line.
fn severity(line: &[char]) -> (level: Level)
    ensures
        level == level_of(line@),
{
    if has(line, tag_chars(Level::Error).as_slice()) {
        Level::Error
    } else if has(line, tag_chars(Level::Critical).as_slice()) {
        Level::Critical
    } else if has(line, tag_chars(Level::Warning).as_slice()) {
        Level::Warning
    } else if has(line, tag_chars(Level::Info).as_slice()) {
        Level::Info
    } else {
        Level::Debug
    }
}

/// Classifies a diagnostic line: its severity and its text.
fn diagnostic(line: &[char]) -> (parsed: ParsedLine)
    ensures
        parsed@ == ParsedLineView::Diagnostic(level_of(line@), diagnostic_text(line@)),
{
    let level = severity(line);
    let stripped = match level {
        Level::Error | Level::Critical => {
            let first = without(line, tag_chars(Level::Error).as_slice());
            without(first.as_slice(), tag_chars(Level::Critical).as_slice())
        },
        _ => without(line, tag_chars(level).as_slice()),
    };
    let text = from_chars(trimmed(stripped.as_slice()));
    ParsedLine::Diagnostic(level, text)
}

/// Classifies one line of the child's output, given without its newline.
///
/// A line with the port marker is a port announcement when the text after
/// the last marker, trimmed, is a 16-bit number, and unrecognized otherwise.
/// Any other line with the shutdown marker is the acknowledgement. Every
/// remaining line is diagnostic text.
pub fn classify(line: &str) -> (parsed: ParsedLine)
    ensures
        parsed@ == classify_spec(line@),
{
    let chars = to_chars(line);
    let marker = to_chars("ACTUAL_PORT: ");
    match find_last(chars.as_slice(), marker.as_slice()) {
        Some(at) => {
            let width: usize = marker.len();
            let end: usize = chars.len();
            proof {
                lemma_last_occurrence_unique(chars@, marker@, at as int);
                assert(occurs_at(chars@, marker@, at as int));
                assert(at + width <= end);
            }
            let tail = slice_subrange(chars.as_slice(), at + width, end);
            match read_u16(trimmed(tail)) {
                Some(port) => ParsedLine::PortAnnouncement(port),
                None => ParsedLine::Unrecognized(String::from_str(line)),
            }
        },
        None => {
            if has(chars.as_slice(), to_chars("BACKEND_SHUTDOWN_COMPLETE").as_slice()) {
                ParsedLine::ShutdownAck
            } else {
                diagnostic(chars.as_slice())
            }
        },
    }
}

} // verus!
