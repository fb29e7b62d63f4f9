use nixvulns::memhelp::{
    logtrace, message_trace, trace_log_line, mktrace_trace_id, mktrace_trace_static, shorten_trace, MESSAGE_ID_WARN_LEN,
    TRACE_LOG_LIMIT,
};

#[test]
fn static_trace_extends_parent() {
    let parent = Some("db".to_string());
    assert_eq!(mktrace_trace_static(&parent, "query"), Some("db.query".to_string()));
}

#[test]
fn static_trace_without_parent_is_marked_missing() {
    assert_eq!(mktrace_trace_static(&None, "Tags"), Some("MISSING.Tags".to_string()));
}

#[test]
fn id_trace_extends_parent() {
    let parent = Some("db.query.search_threads".to_string());
    assert_eq!(
        mktrace_trace_id(&parent, "0000000000000abc".to_string()),
        Some("db.query.search_threads.0000000000000abc".to_string())
    );
}

#[test]
fn id_trace_without_parent_is_marked_missing() {
    assert_eq!(mktrace_trace_id(&None, "<a@b>".to_string()), Some("MISSING.<a@b>".to_string()));
}

#[test]
fn traces_chain_through_objects() {
    let db = Some("db".to_string());
    let query = mktrace_trace_static(&db, "query");
    let threads = mktrace_trace_static(&query, "search_threads");
    let thread = mktrace_trace_id(&threads, "42".to_string());
    assert_eq!(thread, Some("db.query.search_threads.42".to_string()));
}

#[test]
fn short_trace_is_logged_whole() {
    let line = trace_log_line("Dropping DB", &Some("db".to_string()));
    assert_eq!(line, "~ Dropping DB >>>db<<<");
}

#[test]
fn missing_trace_is_reported() {
    assert_eq!(trace_log_line("Dropping DB", &None), "~ Dropping DB MISSING TRACE");
}

#[test]
fn trace_at_the_limit_is_kept() {
    let t = "a".repeat(TRACE_LOG_LIMIT);
    assert_eq!(shorten_trace(&t), t);
}

#[test]
fn long_ascii_trace_is_cut_at_the_limit() {
    let t = "a".repeat(300);
    let expected = format!("{}TRUNCATED", "a".repeat(250));
    assert_eq!(shorten_trace(&t), expected);
    assert_eq!(
        trace_log_line("x", &Some(t)),
        format!("~ x >>>{}<<<", expected)
    );
}

#[test]
fn long_trace_is_cut_on_a_character_boundary() {
    // 249 ASCII bytes, then a two-byte character over bytes 249 and 250.
    let t = format!("{}é{}", "a".repeat(249), "b".repeat(10));
    assert_eq!(t.len(), 261);
    assert_eq!(shorten_trace(&t), format!("{}éTRUNCATED", "a".repeat(249)));
}

#[test]
fn long_trace_with_four_byte_character_is_cut_after_it() {
    // 248 ASCII bytes, then a four-byte character over bytes 248..252.
    let t = format!("{}😀{}", "a".repeat(248), "b".repeat(5));
    assert_eq!(shorten_trace(&t), format!("{}😀TRUNCATED", "a".repeat(248)));
}

#[test]
fn trace_one_past_the_limit_is_cut() {
    let t = "z".repeat(251);
    assert_eq!(shorten_trace(&t), format!("{}TRUNCATED", "z".repeat(250)));
}

#[test]
fn message_trace_names_the_message() {
    let (trace, overlong) = message_trace(&Some("db.Messages".to_string()), "abc@example.org".to_string());
    assert_eq!(trace, Some("db.Messages.abc@example.org".to_string()));
    assert!(!overlong);
}

#[test]
fn message_id_at_the_warning_length_is_fine() {
    let (_, overlong) = message_trace(&None, "m".repeat(MESSAGE_ID_WARN_LEN));
    assert!(!overlong);
}

#[test]
fn long_message_id_is_flagged() {
    let (trace, overlong) = message_trace(&None, "m".repeat(151));
    assert_eq!(trace, Some(format!("MISSING.{}", "m".repeat(151))));
    assert!(overlong);
}

#[test]
fn message_id_length_counts_bytes() {
    // 76 two-byte characters: 152 bytes.
    let (_, overlong) = message_trace(&None, "é".repeat(76));
    assert!(overlong);
}

#[test]
fn logtrace_leaves_nothing_behind() {
    let trace = Some("z".repeat(400));
    let () = logtrace("Dropping DB", &trace);
    let () = logtrace("Dropping DB", &None);
    assert_eq!(trace, Some("z".repeat(400)));
}
