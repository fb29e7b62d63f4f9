//! The Markdown report of triaged threads: one section per suggested package,
//! one collapsible block per thread, and a heading per message up to the first
//! message that has MIME parts.
use vstd::prelude::*;
use vstd::string::*;
use mailparse::MailParseError;

verus! {

/// `mailparse::MailParseError`, carried through as an opaque value.
#[verifier::external_type_specification]
#[verifier::external_body]
pub struct ExMailParseError(MailParseError);

/// How many MIME subparts `mailparse` finds at the top level of the raw
/// message `raw`, or nothing when it cannot parse the message.
pub uninterp spec fn mail_subpart_count(raw: Seq<u8>) -> Option<nat>;

/// Calls `mailparse::parse_mail` on the raw message and keeps the number of
/// top-level subparts it found; the parse error is handed back as it came.
/// The contract names the count (`mail_subpart_count`) and says nothing of
/// which inputs parse: that is `mailparse`'s own grammar.
#[verifier::external_body]
fn parse_subpart_count(raw: &[u8]) -> (res: Result<usize, MailParseError>)
    ensures
        match res {
            Ok(n) => mail_subpart_count(raw@) == Some(n as nat),
            Err(_) => mail_subpart_count(raw@) is None,
        },
{
    match mailparse::parse_mail(raw) {
        Ok(mail) => Ok(mail.subparts.len()),
        Err(e) => Err(e),
    }
}

/// Why a report could not be written.
#[derive(Debug)]
pub enum ReportError {
    /// A message file could not be parsed as mail.
    UnparsableMail(MailParseError),
}

/// The report text for one message's MIME parts, and whether the thread's
/// listing stops after this message.
pub struct MessageParts {
    pub text: String,
    pub ends_thread: bool,
}

/// The block written for each MIME part.
pub open spec fn part_block() -> Seq<char> {
    "<details><summary>Additional Parts</summary>\n</details>\n"@
}

/// `n` part blocks, one after another.
pub open spec fn part_blocks(n: nat) -> Seq<char>
    decreases n,
{
    if n == 0 {
        Seq::empty()
    } else {
        part_blocks((n - 1) as nat) + part_block()
    }
}

/// The text for a message with `n` parts: nothing for a single-part message,
/// else a block per part and a rule.
pub open spec fn parts_text(n: nat) -> Seq<char> {
    if n == 0 {
        Seq::empty()
    } else {
        part_blocks(n) + "\n---\n\n"@
    }
}

/// The heading of a package's section.
pub open spec fn package_heading_text(package: Seq<char>) -> Seq<char> {
    "## "@ + package + "\n"@
}

/// The opening of a thread's block.
pub open spec fn thread_opening_text(subject: Seq<char>) -> Seq<char> {
    "<details>\n<summary><strong>"@ + subject + "</strong></summary>\n\n"@
}

/// The heading of one message.
pub open spec fn message_heading_text(filename: Seq<char>, from: Seq<char>, message_id: Seq<char>) -> Seq<char> {
    "<!-- next: "@ + filename + " -->\n\n"@ + "##### "@ + from + ", `"@ + message_id + "`\n"@
}

/// The heading of a package's section.
pub fn package_heading(package: &str) -> (text: String)
    ensures
        text@ == package_heading_text(package@),
{
    String::from_str("## ").concat(package).concat("\n")
}

/// The opening of a thread's block, with its subject as summary.
pub fn thread_opening(subject: &str) -> (text: String)
    ensures
        text@ == thread_opening_text(subject@),
{
    String::from_str("<details>\n<summary><strong>").concat(subject).concat("</strong></summary>\n\n")
}

/// The end of a thread's block.
pub fn thread_closing() -> (text: String)
    ensures
        text@ == "</details>\n"@,
{
    String::from_str("</details>\n")
}

/// The end of a package's section.
pub fn package_closing() -> (text: String)
    ensures
        text@ == "\n"@,
{
    String::from_str("\n")
}

/// The heading of one message: its file, sender and message id.
pub fn message_heading(filename: &str, from: &str, message_id: &str) -> (text: String)
    ensures
        text@ == message_heading_text(filename@, from@, message_id@),
{
    String::from_str("<!-- next: ").concat(filename).concat(" -->\n\n").concat("##### ").concat(from).concat(
        ", `",
    ).concat(message_id).concat("`\n")
}

/// The text for a message with `count` MIME parts.
pub fn parts_section(count: usize) -> (text: String)
    ensures
        text@ == parts_text(count as nat),
{
    let mut text = String::new();
    if count == 0 {
        return text;
    }
    let mut i: usize = 0;
    while i < count
        invariant
            i <= count,
            text@ == part_blocks(i as nat),
        decreases count - i,
    {
        text.append("<details><summary>Additional Parts</summary>\n</details>\n");
        i = i + 1;
    }
    text.concat("\n---\n\n")
}

/// What the report says of a parsed message with `count` parts: its text, and
/// whether the thread's listing ends here (it does at the first message with
/// parts).
pub fn parts_outcome(count: usize) -> (parts: MessageParts)
    ensures
        parts.text@ == parts_text(count as nat),
        parts.ends_thread == (count > 0),
{
    MessageParts { text: parts_section(count), ends_thread: count > 0 }
}

/// Parses a raw message and says what the report writes of its parts.
pub fn message_parts(raw: &[u8]) -> (res: Result<MessageParts, ReportError>)
    ensures
        res is Ok <==> mail_subpart_count(raw@) is Some,
        res matches Ok(parts) ==> parts.text@ == parts_text(mail_subpart_count(raw@)->Some_0)
            && parts.ends_thread == (mail_subpart_count(raw@)->Some_0 > 0),
{
    match parse_subpart_count(raw) {
        Ok(count) => Ok(parts_outcome(count)),
        Err(e) => Err(ReportError::UnparsableMail(e)),
    }
}

proof fn lemma_three_pieces(a: Seq<char>, b: Seq<char>, c: Seq<char>)
    ensures
        (a + b + c).len() == a.len() + b.len() + c.len(),
        (a + b + c).take(a.len() as int) == a,
        (a + b + c).subrange(a.len() as int, (a.len() + b.len()) as int) == b,
        (a + b + c).skip((a.len() + b.len()) as int) == c,
{
    assert((a + b + c).take(a.len() as int) =~= a);
    assert((a + b + c).subrange(a.len() as int, (a.len() + b.len()) as int) =~= b);
    assert((a + b + c).skip((a.len() + b.len()) as int) =~= c);
}

/// A package's heading holds the whole package name, verbatim, between `## `
/// and the line end.
pub proof fn lemma_package_heading_shows_package(package: Seq<char>)
    ensures
        package_heading_text(package).len() == package.len() + 4,
        package_heading_text(package).take(3) == "## "@,
        package_heading_text(package).subrange(3, 3 + package.len() as int) == package,
        package_heading_text(package).skip(3 + package.len() as int) == "\n"@,
{
    reveal_strlit("## ");
    reveal_strlit("\n");
    lemma_three_pieces("## "@, package, "\n"@);
}

/// A thread's opening holds the whole subject, verbatim, between
/// `<summary><strong>` and `</strong>`, whatever its length.
pub proof fn lemma_thread_opening_shows_subject(subject: Seq<char>)
    ensures
        thread_opening_text(subject).len() == subject.len() + 48,
        thread_opening_text(subject).take(27) == "<details>\n<summary><strong>"@,
        thread_opening_text(subject).subrange(27, 27 + subject.len() as int) == subject,
        thread_opening_text(subject).skip(27 + subject.len() as int) == "</strong></summary>\n\n"@,
{
    reveal_strlit("<details>\n<summary><strong>");
    reveal_strlit("</strong></summary>\n\n");
    lemma_three_pieces("<details>\n<summary><strong>"@, subject, "</strong></summary>\n\n"@);
}

/// A message's heading holds its file name, sender and message id, each
/// whole and verbatim, at fixed offsets after one another.
pub proof fn lemma_message_heading_shows_fields(filename: Seq<char>, from: Seq<char>, message_id: Seq<char>)
    ensures
        ({
            let t = message_heading_text(filename, from, message_id);
            let f = filename.len() as int;
            let s = from.len() as int;
            let m = message_id.len() as int;
            &&& t.len() == f + s + m + 28
            &&& t.take(11) == "<!-- next: "@
            &&& t.subrange(11, 11 + f) == filename
            &&& t.subrange(11 + f, 23 + f) == " -->\n\n##### "@
            &&& t.subrange(23 + f, 23 + f + s) == from
            &&& t.subrange(23 + f + s, 26 + f + s) == ", `"@
            &&& t.subrange(26 + f + s, 26 + f + s + m) == message_id
            &&& t.skip(26 + f + s + m) == "`\n"@
        }),
{
    reveal_strlit("<!-- next: ");
    reveal_strlit(" -->\n\n");
    reveal_strlit("##### ");
    reveal_strlit(" -->\n\n##### ");
    reveal_strlit(", `");
    reveal_strlit("`\n");
    let t = message_heading_text(filename, from, message_id);
    let f = filename.len() as int;
    let s = from.len() as int;
    let m = message_id.len() as int;
    let a = "<!-- next: "@;
    let b = " -->\n\n"@ + "##### "@;
    assert(b =~= " -->\n\n##### "@);
    assert(t =~= a + filename + b + from + ", `"@ + message_id + "`\n"@);
    assert(t.len() == f + s + m + 28);
    assert(t.take(11) =~= a);
    assert(t.subrange(11, 11 + f) =~= filename);
    assert(t.subrange(11 + f, 23 + f) =~= b);
    assert(t.subrange(23 + f, 23 + f + s) =~= from);
    assert(t.subrange(23 + f + s, 26 + f + s) =~= ", `"@);
    assert(t.subrange(26 + f + s, 26 + f + s + m) =~= message_id);
    assert(t.skip(26 + f + s + m) =~= "`\n"@);
}

proof fn lemma_part_blocks_layout(n: nat)
    ensures
        part_blocks(n).len() == 56 * n,
        forall|i: int| 0 <= i < n ==> #[trigger] part_blocks(n).subrange(56 * i, 56 * i + 56)
            == "<details><summary>Additional Parts</summary>\n</details>\n"@,
        part_blocks(n + 1) == "<details><summary>Additional Parts</summary>\n</details>\n"@ + part_blocks(n),
    decreases n,
{
    reveal_strlit("<details><summary>Additional Parts</summary>\n</details>\n");
    let b = "<details><summary>Additional Parts</summary>\n</details>\n"@;
    assert(part_block() == b);
    assert(b.len() == 56);
    if n == 0 {
        assert(part_blocks(0) == Seq::<char>::empty());
        assert(part_blocks(1) == part_blocks(0) + b);
        assert(part_blocks(1) =~= b);
        assert(b + part_blocks(0) =~= b);
    } else {
        let m = (n - 1) as nat;
        lemma_part_blocks_layout(m);
        let prev = part_blocks(m);
        assert(part_blocks(n) == prev + b);
        assert forall|i: int| 0 <= i < n implies #[trigger] part_blocks(n).subrange(56 * i, 56 * i + 56) == b by {
            if i < m {
                assert(prev.subrange(56 * i, 56 * i + 56) == b);
                assert((prev + b).subrange(56 * i, 56 * i + 56) =~= prev.subrange(56 * i, 56 * i + 56));
            } else {
                assert((prev + b).subrange(56 * i, 56 * i + 56) =~= b);
            }
        }
        assert(part_blocks(n + 1) == part_blocks(n) + b);
        assert(part_blocks(n) == b + prev);
        assert(part_blocks(n + 1) == b + prev + b);
        assert(part_blocks(n + 1) =~= b + part_blocks(n));
    }
}

/// The text for a message with `n` parts: nothing when `n` is 0; otherwise
/// exactly `n` part blocks, one per part, then the rule. A message with one
/// more part gets exactly one more block.
pub proof fn lemma_parts_text_lists_every_part(n: nat)
    ensures
        n == 0 ==> parts_text(n).len() == 0,
        n > 0 ==> parts_text(n).len() == 56 * n + 6,
        n > 0 ==> forall|i: int| 0 <= i < n ==> #[trigger] parts_text(n).subrange(56 * i, 56 * i + 56)
            == "<details><summary>Additional Parts</summary>\n</details>\n"@,
        n > 0 ==> parts_text(n).skip((56 * n) as int) == "\n---\n\n"@,
        n > 0 ==> parts_text(n + 1) == "<details><summary>Additional Parts</summary>\n</details>\n"@
            + parts_text(n),
        parts_text(1) == "<details><summary>Additional Parts</summary>\n</details>\n\n---\n\n"@,
{
    reveal_strlit("<details><summary>Additional Parts</summary>\n</details>\n");
    reveal_strlit("\n---\n\n");
    reveal_strlit("<details><summary>Additional Parts</summary>\n</details>\n\n---\n\n");
    let b = "<details><summary>Additional Parts</summary>\n</details>\n"@;
    let rule = "\n---\n\n"@;
    lemma_part_blocks_layout(n);
    lemma_part_blocks_layout(0);
    assert(part_blocks(1) == b);
    assert(parts_text(1) =~= b + rule);
    assert(b + rule =~= "<details><summary>Additional Parts</summary>\n</details>\n\n---\n\n"@);
    if n > 0 {
        let t = part_blocks(n) + rule;
        assert forall|i: int| 0 <= i < n implies #[trigger] parts_text(n).subrange(56 * i, 56 * i + 56) == b by {
            assert(part_blocks(n).subrange(56 * i, 56 * i + 56) == b);
            assert(t.subrange(56 * i, 56 * i + 56) =~= part_blocks(n).subrange(56 * i, 56 * i + 56));
        }
        assert(t.skip((56 * n) as int) =~= rule);
        assert(parts_text(n + 1) =~= b + parts_text(n));
    }
}

} // verus!
