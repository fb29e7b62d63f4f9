use nixvulns::report::{
    message_heading, message_parts, package_closing, package_heading, parts_outcome, parts_section,
    thread_closing, thread_opening, ReportError,
};

#[test]
fn package_heading_text() {
    assert_eq!(package_heading("firefox"), "## firefox\n");
}

#[test]
fn thread_block_text() {
    assert_eq!(thread_opening("CVE-2017-1"), "<details>\n<summary><strong>CVE-2017-1</strong></summary>\n\n");
    assert_eq!(thread_closing(), "</details>\n");
    assert_eq!(package_closing(), "\n");
}

#[test]
fn message_heading_text() {
    assert_eq!(
        message_heading("/mail/cur/1", "Alice <a@x.org>", "abc@x.org"),
        "<!-- next: /mail/cur/1 -->\n\n##### Alice <a@x.org>, `abc@x.org`\n"
    );
}

#[test]
fn single_part_message_adds_nothing() {
    assert_eq!(parts_section(0), "");
    let p = parts_outcome(0);
    assert_eq!(p.text, "");
    assert!(!p.ends_thread);
}

#[test]
fn parts_are_listed_then_ruled_off() {
    let block = "<details><summary>Additional Parts</summary>\n</details>\n";
    assert_eq!(parts_section(1), format!("{}\n---\n\n", block));
    assert_eq!(parts_section(3), format!("{}{}{}\n---\n\n", block, block, block));
    assert!(parts_outcome(3).ends_thread);
}

const MULTIPART: &str = "Subject: This is a test email\nContent-Type: multipart/alternative; boundary=foobar\nDate: Sun, 02 Oct 2016 07:06:22 -0700 (PDT)\n\n--foobar\nContent-Type: text/plain; charset=utf-8\nContent-Transfer-Encoding: quoted-printable\n\nThis is the plaintext version, in utf-8. Proof by Euro: =E2=82=AC\n--foobar\nContent-Type: text/html\nContent-Transfer-Encoding: base64\n\nPGh0bWw+PGJvZHk+VGhpcyBpcyB0aGUgPGI+SFRNTDwvYj4gdmVyc2lvbiwgaW4g \ndXMtYXNjaWkuIFByb29mIGJ5IEV1cm86ICZldXJvOzwvYm9keT48L2h0bWw+Cg== \n--foobar--\nAfter the final boundary stuff gets ignored.\n";

#[test]
fn multipart_message_lists_its_parts_and_ends_thread() {
    let p = message_parts(MULTIPART.as_bytes()).unwrap();
    assert_eq!(p.text, parts_section(2));
    assert!(p.ends_thread);
}

#[test]
fn plain_message_has_no_parts() {
    let p = message_parts(b"Subject: hi\nFrom: a@b.c\n\nJust text.\n").unwrap();
    assert_eq!(p.text, "");
    assert!(!p.ends_thread);
}

#[test]
fn empty_message_has_no_parts() {
    let p = message_parts(b"").unwrap();
    assert_eq!(p.text, "");
    assert!(!p.ends_thread);
}

#[test]
fn unparsable_message_is_an_error() {
    match message_parts(b" Subject: overhanging\n\nbody") {
        Err(ReportError::UnparsableMail(_)) => {}
        Ok(_) => panic!("expected a parse error"),
    }
    assert!(message_parts(b"Subject: x\n\rY: z\n\n").is_err());
}
