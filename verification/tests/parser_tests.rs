use sidecar_supervisor::parser::{classify, Level, ParsedLine};

fn diagnostic(level: Level, text: &str) -> ParsedLine {
    ParsedLine::Diagnostic(level, text.to_string())
}

fn unrecognized(text: &str) -> ParsedLine {
    ParsedLine::Unrecognized(text.to_string())
}

#[test]
fn port_announcement_is_read() {
    assert_eq!(classify("ACTUAL_PORT: 9000"), ParsedLine::PortAnnouncement(9000));
    assert_eq!(classify("ACTUAL_PORT: 54321"), ParsedLine::PortAnnouncement(54321));
    assert_eq!(classify("ACTUAL_PORT: 12345"), ParsedLine::PortAnnouncement(12345));
}

#[test]
fn port_announcement_may_follow_other_text() {
    assert_eq!(
        classify("[INFO] server up, ACTUAL_PORT: 8080"),
        ParsedLine::PortAnnouncement(8080)
    );
}

#[test]
fn port_is_read_after_the_last_marker() {
    assert_eq!(
        classify("ACTUAL_PORT: 1 ACTUAL_PORT: 2"),
        ParsedLine::PortAnnouncement(2)
    );
    assert_eq!(
        classify("ACTUAL_PORT: 7000 then ACTUAL_PORT: oops"),
        unrecognized("ACTUAL_PORT: 7000 then ACTUAL_PORT: oops")
    );
}

#[test]
fn port_text_is_trimmed_before_it_is_read() {
    assert_eq!(classify("ACTUAL_PORT:    8080  "), ParsedLine::PortAnnouncement(8080));
    assert_eq!(classify("ACTUAL_PORT: 8080\r"), ParsedLine::PortAnnouncement(8080));
    assert_eq!(classify("ACTUAL_PORT: \t8080\u{a0}"), ParsedLine::PortAnnouncement(8080));
    assert_eq!(classify("ACTUAL_PORT: 8080\n"), ParsedLine::PortAnnouncement(8080));
}

#[test]
fn port_bounds() {
    assert_eq!(classify("ACTUAL_PORT: 0"), ParsedLine::PortAnnouncement(0));
    assert_eq!(classify("ACTUAL_PORT: 65535"), ParsedLine::PortAnnouncement(65535));
    assert_eq!(classify("ACTUAL_PORT: 65536"), unrecognized("ACTUAL_PORT: 65536"));
    assert_eq!(
        classify("ACTUAL_PORT: 99999999999999999999999"),
        unrecognized("ACTUAL_PORT: 99999999999999999999999")
    );
    assert_eq!(classify("ACTUAL_PORT: 00080"), ParsedLine::PortAnnouncement(80));
    assert_eq!(classify("ACTUAL_PORT: +80"), ParsedLine::PortAnnouncement(80));
}

#[test]
fn malformed_announcement_is_unrecognized() {
    assert_eq!(
        classify("ACTUAL_PORT: not-a-number"),
        unrecognized("ACTUAL_PORT: not-a-number")
    );
    assert_eq!(classify("ACTUAL_PORT: "), unrecognized("ACTUAL_PORT: "));
    assert_eq!(classify("ACTUAL_PORT: -1"), unrecognized("ACTUAL_PORT: -1"));
    assert_eq!(classify("ACTUAL_PORT: +"), unrecognized("ACTUAL_PORT: +"));
    assert_eq!(classify("ACTUAL_PORT: 80 81"), unrecognized("ACTUAL_PORT: 80 81"));
    assert_eq!(classify("ACTUAL_PORT: 8_0"), unrecognized("ACTUAL_PORT: 8_0"));
    assert_eq!(classify("ACTUAL_PORT: 80."), unrecognized("ACTUAL_PORT: 80."));
    assert_eq!(classify("ACTUAL_PORT: ８０"), unrecognized("ACTUAL_PORT: ８０"));
}

#[test]
fn unrecognized_keeps_the_whole_line() {
    assert_eq!(
        classify("  [ERROR] ACTUAL_PORT: x  "),
        unrecognized("  [ERROR] ACTUAL_PORT: x  ")
    );
}

#[test]
fn marker_without_its_space_is_no_announcement() {
    assert_eq!(
        classify("ACTUAL_PORT:9000"),
        diagnostic(Level::Debug, "ACTUAL_PORT:9000")
    );
    assert_eq!(
        classify("actual_port: 9000"),
        diagnostic(Level::Debug, "actual_port: 9000")
    );
}

#[test]
fn shutdown_marker_is_the_acknowledgement() {
    assert_eq!(classify("BACKEND_SHUTDOWN_COMPLETE"), ParsedLine::ShutdownAck);
    assert_eq!(
        classify("[INFO] BACKEND_SHUTDOWN_COMPLETE, bye"),
        ParsedLine::ShutdownAck
    );
}

#[test]
fn port_marker_is_tried_before_the_shutdown_marker() {
    assert_eq!(
        classify("BACKEND_SHUTDOWN_COMPLETE ACTUAL_PORT: 4000"),
        ParsedLine::PortAnnouncement(4000)
    );
    assert_eq!(
        classify("ACTUAL_PORT: 4000 BACKEND_SHUTDOWN_COMPLETE"),
        unrecognized("ACTUAL_PORT: 4000 BACKEND_SHUTDOWN_COMPLETE")
    );
}

#[test]
fn tagged_lines_carry_their_severity() {
    assert_eq!(classify("[ERROR] boom"), diagnostic(Level::Error, "boom"));
    assert_eq!(classify("[CRITICAL] fire"), diagnostic(Level::Critical, "fire"));
    assert_eq!(classify("[WARNING] careful"), diagnostic(Level::Warning, "careful"));
    assert_eq!(classify("[INFO] started"), diagnostic(Level::Info, "started"));
    assert_eq!(classify("[DEBUG] detail"), diagnostic(Level::Debug, "detail"));
}

#[test]
fn untagged_lines_are_debug_text() {
    assert_eq!(classify("hello"), diagnostic(Level::Debug, "hello"));
    assert_eq!(classify("   padded \t"), diagnostic(Level::Debug, "padded"));
    assert_eq!(classify(""), diagnostic(Level::Debug, ""));
    assert_eq!(classify("   "), diagnostic(Level::Debug, ""));
    assert_eq!(classify("[TRACE] x"), diagnostic(Level::Debug, "[TRACE] x"));
}

#[test]
fn tag_is_taken_out_wherever_it_stands() {
    assert_eq!(classify("a [INFO] b"), diagnostic(Level::Info, "a  b"));
    assert_eq!(classify("x[WARNING]"), diagnostic(Level::Warning, "x"));
    assert_eq!(classify("[INFO][INFO] twice"), diagnostic(Level::Info, "twice"));
    assert_eq!(classify("[INFO]"), diagnostic(Level::Info, ""));
}

#[test]
fn severity_goes_by_the_first_tag_in_order() {
    assert_eq!(
        classify("[WARNING] then [ERROR]"),
        diagnostic(Level::Error, "[WARNING] then")
    );
    assert_eq!(
        classify("[INFO] [CRITICAL] x"),
        diagnostic(Level::Critical, "[INFO]  x")
    );
    assert_eq!(
        classify("[DEBUG] [INFO] x"),
        diagnostic(Level::Info, "[DEBUG]  x")
    );
    assert_eq!(
        classify("[INFO] [WARNING] x"),
        diagnostic(Level::Warning, "[INFO]  x")
    );
}

#[test]
fn error_and_critical_lose_both_tags() {
    assert_eq!(
        classify("[ERROR] a [CRITICAL] b"),
        diagnostic(Level::Error, "a  b")
    );
    assert_eq!(
        classify("[CRITICAL] a [ERROR] b"),
        diagnostic(Level::Error, "a  b")
    );
    assert_eq!(
        classify("[CRIT[ERROR]ICAL] z"),
        diagnostic(Level::Error, "z")
    );
}

#[test]
fn text_beyond_ascii_is_kept() {
    assert_eq!(
        classify("[INFO] żółw → 亀"),
        diagnostic(Level::Info, "żółw → 亀")
    );
    assert_eq!(
        classify("\u{3000}[ERROR] \u{fffd}\u{2003}"),
        diagnostic(Level::Error, "\u{fffd}")
    );
}
