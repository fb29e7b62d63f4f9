//! Trace labels that follow an object back to the database it came from,
//! and the log line that reports one.
use vstd::prelude::*;
use vstd::string::*;
use vstd::utf8::*;

verus! {

broadcast use vstd::utf8::group_utf8_lib;

/// Traces longer than this many bytes are cut when they are logged.
pub const TRACE_LOG_LIMIT: usize = 250;

/// A label as a plain value: its characters, or nothing.
pub open spec fn opt_view(s: &Option<String>) -> Option<Seq<char>> {
    match s {
        Some(t) => Some(t@),
        None => None,
    }
}

/// The label of a child object: the parent's label, a dot, then the suffix.
/// A parent without a label counts as `MISSING`.
pub open spec fn child_trace(prefix: Option<Seq<char>>, suffix: Seq<char>) -> Seq<char> {
    match prefix {
        Some(p) => p + "."@ + suffix,
        None => "MISSING."@ + suffix,
    }
}

/// Derives the label of a child object from its parent's label and a fixed suffix.
pub fn mktrace_trace_static(prefix: &Option<String>, suffix: &str) -> (res: Option<String>)
    ensures
        res is Some,
        res->Some_0@ == child_trace(opt_view(prefix), suffix@),
{
    match prefix {
        Some(p) => {
            let s = p.clone().concat(".");
            Some(s.concat(suffix))
        },
        None => {
            let s = String::from_str("MISSING.");
            Some(s.concat(suffix))
        },
    }
}

/// Derives the label of a child object from its parent's label and the
/// child's own identifier.
pub fn mktrace_trace_id(prefix: &Option<String>, suffix: String) -> (res: Option<String>)
    ensures
        res is Some,
        res->Some_0@ == child_trace(opt_view(prefix), suffix@),
{
    mktrace_trace_static(prefix, suffix.as_str())
}

/// Message ids longer than this many bytes are worth a warning in the log.
pub const MESSAGE_ID_WARN_LEN: usize = 150;

/// The trace a message gets once its id is known, and whether the id is long
/// enough (over `MESSAGE_ID_WARN_LEN` bytes) to be logged as suspicious.
pub fn message_trace(parent: &Option<String>, message_id: String) -> (res: (Option<String>, bool))
    ensures
        res.0 is Some,
        res.0->Some_0@ == child_trace(opt_view(parent), message_id@),
        res.1 == (encode_utf8(message_id@).len() > MESSAGE_ID_WARN_LEN),
{
    let id_len = message_id.as_str().as_bytes().len();
    (mktrace_trace_id(parent, message_id), id_len > MESSAGE_ID_WARN_LEN)
}

/// A child's label under a labelled parent is the parent's label, one dot,
/// then the whole suffix, which reads back unchanged whatever its length;
/// under an unlabelled parent it is `MISSING.` then the whole suffix.
pub proof fn lemma_child_trace_reads_back(prefix: Option<Seq<char>>, suffix: Seq<char>)
    ensures
        prefix matches Some(p) ==> {
            let l = child_trace(prefix, suffix);
            &&& l.len() == p.len() + 1 + suffix.len()
            &&& l.take(p.len() as int) == p
            &&& l[p.len() as int] == '.'
            &&& l.skip(p.len() + 1 as int) == suffix
        },
        prefix is None ==> {
            let l = child_trace(prefix, suffix);
            &&& l.len() == 8 + suffix.len()
            &&& l.take(8) == "MISSING."@
            &&& l.skip(8) == suffix
        },
{
    reveal_strlit(".");
    reveal_strlit("MISSING.");
    match prefix {
        Some(p) => {
            let l = child_trace(prefix, suffix);
            assert(l =~= p + "."@ + suffix);
            assert(l.take(p.len() as int) =~= p);
            assert(l.skip(p.len() + 1 as int) =~= suffix);
        },
        None => {
            let l = child_trace(prefix, suffix);
            assert(l.take(8) =~= "MISSING."@);
            assert(l.skip(8) =~= suffix);
        },
    }
}

/// Labels chain: a grandchild's label is the parent's label, then each
/// suffix in turn, each after one dot.
pub proof fn lemma_child_trace_chains(p: Seq<char>, a: Seq<char>, b: Seq<char>)
    ensures
        child_trace(Some(child_trace(Some(p), a)), b) == p + "."@ + a + "."@ + b,
{
}

/// The log line names the event whole, right after `~ `, and then either the
/// logged trace between ` >>>` and `<<<`, or ` MISSING TRACE`.
pub proof fn lemma_trace_line_layout(whatup: Seq<char>, trace: Option<Seq<char>>)
    ensures
        trace_line(whatup, trace).take(2) == "~ "@,
        trace_line(whatup, trace).subrange(2, 2 + whatup.len() as int) == whatup,
        trace matches Some(t) ==> trace_line(whatup, trace).skip(2 + whatup.len() as int) == " >>>"@
            + shortened_trace(t) + "<<<"@,
        trace is None ==> trace_line(whatup, trace).skip(2 + whatup.len() as int) == " MISSING TRACE"@,
{
    reveal_strlit("~ ");
    let l = trace_line(whatup, trace);
    match trace {
        Some(t) => {
            let rest = " >>>"@ + shortened_trace(t) + "<<<"@;
            assert(l =~= "~ "@ + whatup + rest);
            assert(l.take(2) =~= "~ "@);
            assert(l.subrange(2, 2 + whatup.len() as int) =~= whatup);
            assert(l.skip(2 + whatup.len() as int) =~= rest);
        },
        None => {
            assert(l.take(2) =~= "~ "@);
            assert(l.subrange(2, 2 + whatup.len() as int) =~= whatup);
            assert(l.skip(2 + whatup.len() as int) =~= " MISSING TRACE"@);
        },
    }
}

/// The first character boundary of `bytes` at or after byte `i`
/// (the end of the bytes counts as a boundary).
pub open spec fn next_boundary(bytes: Seq<u8>, i: int) -> int
    decreases bytes.len() - i,
{
    if i >= bytes.len() || is_char_boundary(bytes, i) {
        i
    } else {
        next_boundary(bytes, i + 1)
    }
}

/// Where a long trace is cut: the first character boundary at or after the limit.
pub open spec fn cut_point(t: Seq<char>) -> int {
    next_boundary(encode_utf8(t), TRACE_LOG_LIMIT as int)
}

/// A trace as it is written to the log: unchanged when its UTF-8 encoding
/// holds at most `TRACE_LOG_LIMIT` bytes; otherwise its characters up to the
/// cut point, followed by `TRUNCATED`.
pub open spec fn shortened_trace(t: Seq<char>) -> Seq<char> {
    if encode_utf8(t).len() > TRACE_LOG_LIMIT {
        decode_utf8(encode_utf8(t).subrange(0, cut_point(t))) + "TRUNCATED"@
    } else {
        t
    }
}

/// The line that reports an event on a traced object.
pub open spec fn trace_line(whatup: Seq<char>, trace: Option<Seq<char>>) -> Seq<char> {
    match trace {
        Some(t) => "~ "@ + whatup + " >>>"@ + shortened_trace(t) + "<<<"@,
        None => "~ "@ + whatup + " MISSING TRACE"@,
    }
}

proof fn lemma_next_boundary_bounds(bytes: Seq<u8>, i: int)
    requires
        valid_utf8(bytes),
        0 <= i <= bytes.len(),
    ensures
        i <= next_boundary(bytes, i) <= bytes.len(),
        is_char_boundary(bytes, next_boundary(bytes, i)),
        forall|j: int| i <= j < next_boundary(bytes, i) ==> !is_char_boundary(bytes, j),
    decreases bytes.len() - i,
{
    if i < bytes.len() && !is_char_boundary(bytes, i) {
        lemma_next_boundary_bounds(bytes, i + 1);
    }
}

proof fn lemma_boundary_within_a_character(bytes: Seq<u8>, i: int)
    requires
        valid_utf8(bytes),
        0 <= i <= bytes.len(),
    ensures
        exists|b: int| i <= b <= i + 3 && b <= bytes.len() && is_char_boundary(bytes, b),
    decreases bytes.len(),
{
    if i == 0 {
        assert(is_char_boundary(bytes, 0));
    } else {
        let l = length_of_first_scalar(bytes);
        let tail = pop_first_scalar(bytes);
        assert(1 <= l <= 4 && l <= bytes.len());
        assert(tail.len() == bytes.len() - l);
        assert(valid_utf8(tail));
        if i <= l {
            assert(is_char_boundary(tail, 0));
            assert(is_char_boundary(bytes, l));
        } else {
            lemma_boundary_within_a_character(tail, i - l);
            let b = choose|b: int| i - l <= b <= i - l + 3 && b <= tail.len() && is_char_boundary(tail, b);
            assert(is_char_boundary(bytes, b + l));
        }
    }
}

/// A long trace is cut at most three bytes past the limit: no UTF-8
/// character spans more than four bytes.
pub proof fn lemma_cut_point_bound(t: Seq<char>)
    requires
        encode_utf8(t).len() > TRACE_LOG_LIMIT,
    ensures
        TRACE_LOG_LIMIT <= cut_point(t) <= TRACE_LOG_LIMIT + 3,
{
    let bytes = encode_utf8(t);
    lemma_next_boundary_bounds(bytes, TRACE_LOG_LIMIT as int);
    lemma_boundary_within_a_character(bytes, TRACE_LOG_LIMIT as int);
}

/// The characters of a long trace that the log keeps.
pub open spec fn kept_prefix(t: Seq<char>) -> Seq<char> {
    decode_utf8(encode_utf8(t).subrange(0, cut_point(t)))
}

/// A trace is logged whole when it is short; a long trace is logged as a
/// prefix of itself, at least `TRACE_LOG_LIMIT` bytes long and ending on a
/// character boundary, followed by `TRUNCATED`.
pub proof fn lemma_logged_trace_is_prefix(t: Seq<char>)
    ensures
        encode_utf8(t).len() <= TRACE_LOG_LIMIT ==> shortened_trace(t) == t,
        encode_utf8(t).len() > TRACE_LOG_LIMIT ==> {
            &&& shortened_trace(t) == kept_prefix(t) + "TRUNCATED"@
            &&& kept_prefix(t).len() <= t.len()
            &&& kept_prefix(t) == t.take(kept_prefix(t).len() as int)
            &&& encode_utf8(kept_prefix(t)).len() >= TRACE_LOG_LIMIT
            &&& encode_utf8(kept_prefix(t)).len() == cut_point(t)
            &&& encode_utf8(kept_prefix(t)).len() <= TRACE_LOG_LIMIT + 3
        },
{
    let bytes = encode_utf8(t);
    if bytes.len() > TRACE_LOG_LIMIT {
        lemma_next_boundary_bounds(bytes, TRACE_LOG_LIMIT as int);
        lemma_cut_point_bound(t);
        let k = cut_point(t);
        let head = bytes.subrange(0, k);
        let rest = bytes.subrange(k, bytes.len() as int);
        decode_utf8_split(bytes, k);
        valid_utf8_split(bytes, k);
        assert(decode_utf8(bytes) == t);
        let p = decode_utf8(head);
        assert(t == p + decode_utf8(rest));
        assert(p == t.take(p.len() as int));
        decode_utf8_encode_utf8(head);
    }
}

/// Cuts a trace for the log as `shortened_trace` describes.
pub fn shorten_trace(trace: &String) -> (res: String)
    ensures
        res@ == shortened_trace(trace@),
{
    let s = trace.as_str();
    let ghost bytes = s.spec_bytes();
    let byte_len = s.as_bytes().len();
    if byte_len > TRACE_LOG_LIMIT {
        let mut start_at: usize = TRACE_LOG_LIMIT;
        proof {
            lemma_next_boundary_bounds(bytes, TRACE_LOG_LIMIT as int);
            is_char_boundary_start_end_of_seq(bytes);
        }
        while !s.is_char_boundary(start_at)
            invariant
                bytes == s.spec_bytes(),
                bytes == encode_utf8(trace@),
                valid_utf8(bytes),
                is_char_boundary(bytes, bytes.len() as int),
                byte_len == bytes.len(),
                TRACE_LOG_LIMIT <= start_at <= bytes.len(),
                next_boundary(bytes, start_at as int) == next_boundary(bytes, TRACE_LOG_LIMIT as int),
            decreases bytes.len() - start_at,
        {
            start_at = start_at + 1;
        }
        let (head, _tail) = s.split_at(start_at);
        proof {
            assert(next_boundary(bytes, start_at as int) == start_at as int);
            assert(decode_utf8(encode_utf8(head@)) == head@);
        }
        String::from_str(head).concat("TRUNCATED")
    } else {
        trace.clone()
    }
}

/// The log line for `whatup` on an object with the given trace. Long traces
/// are shortened first.
pub fn trace_log_line(whatup: &str, trace: &Option<String>) -> (line: String)
    ensures
        line@ == trace_line(whatup@, opt_view(trace)),
{
    match trace {
        Some(t) => {
            let short = shorten_trace(t);
            String::from_str("~ ").concat(whatup).concat(" >>>").concat(short.as_str()).concat("<<<")
        },
        None => String::from_str("~ ").concat(whatup).concat(" MISSING TRACE"),
    }
}

/// Logs `whatup` for an object with the given trace. The line is composed as
/// `trace_log_line` describes; writing it out is switched off, so the call
/// leaves nothing behind.
pub fn logtrace(whatup: &str, trace: &Option<String>) {
    let _line = trace_log_line(whatup, trace);
}

} // verus!
