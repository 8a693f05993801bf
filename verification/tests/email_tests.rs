use gmail_sender::{
    build_email, build_email_with_boundary, compose_email, encode_attachment, normalize_text, render_for_debug,
    validate_header_field, Attachment, EncodedAttachment,
};

fn attachment(name: &str, data: &[u8]) -> Attachment {
    Attachment { filename: name.to_string(), data: data.to_vec() }
}

#[test]
fn test_build_email_simple() {
    let raw = build_email("test@example.com", "Subject", "Body", &[]);
    let raw = String::from_utf8(raw.into_bytes()).unwrap();

    assert!(raw.contains("To: test@example.com"));
    assert!(raw.contains("Subject: Subject"));
    assert!(raw.contains("Body"));
    assert!(raw.contains("Content-Type: text/plain"));
}

#[test]
fn test_build_email_uses_crlf() {
    let raw = build_email("test@example.com", "Subject", "Body", &[]);
    let raw = String::from_utf8(raw.into_bytes()).unwrap();

    assert!(raw.contains("\r\n"));
    assert!(!raw.contains("\r\n\r\n\r\n"));
}

#[test]
fn plain_message_is_exactly_headers_blank_line_and_body() {
    let raw = build_email("test@example.com", "Subject", "Body", &[]);
    assert_eq!(
        raw,
        "From: me\r\nTo: test@example.com\r\nSubject: Subject\r\nMIME-Version: 1.0\r\n\
         Content-Type: text/plain; charset=UTF-8\r\n\r\nBody"
    );
}

#[test]
fn compose_email_lays_out_a_multipart_message() {
    let parts = [EncodedAttachment {
        filename: "f.txt".to_string(),
        mime_type: "text/plain".to_string(),
        encoded: "aGk=".to_string(),
    }];
    let raw = compose_email("a@b.c", "Hi", "Text", "B", &parts);
    assert_eq!(
        raw,
        "From: me\r\nTo: a@b.c\r\nSubject: Hi\r\nMIME-Version: 1.0\r\n\
         Content-Type: multipart/mixed; boundary=\"B\"\r\n\r\n\
         --B\r\nContent-Type: text/plain; charset=UTF-8\r\n\r\nText\r\n\r\n\
         --B\r\nContent-Type: text/plain\r\nContent-Disposition: attachment; filename=\"f.txt\"\r\n\
         Content-Transfer-Encoding: base64\r\n\r\naGk=\r\n\r\n--B--"
    );
}

#[test]
fn compose_email_keeps_attachment_order() {
    let parts = [
        EncodedAttachment {
            filename: "one".to_string(),
            mime_type: "x/1".to_string(),
            encoded: "AA==".to_string(),
        },
        EncodedAttachment {
            filename: "two".to_string(),
            mime_type: "x/2".to_string(),
            encoded: "AQ==".to_string(),
        },
    ];
    let raw = compose_email("t", "s", "b", "Z", &parts);
    let first = raw.find("filename=\"one\"").unwrap();
    let second = raw.find("filename=\"two\"").unwrap();
    assert!(first < second);
    assert!(raw.ends_with("AQ==\r\n\r\n--Z--"));
    assert_eq!(raw.matches("--Z\r\n").count(), 3);
}

#[test]
fn encode_attachment_guesses_type_and_encodes_in_base64() {
    let e = encode_attachment(&attachment("notes", b"hello"));
    assert_eq!(e.filename, "notes");
    assert_eq!(e.mime_type, "application/octet-stream");
    assert_eq!(e.encoded, "aGVsbG8=");

    let e = encode_attachment(&attachment("report.pdf", b"hel"));
    assert_eq!(e.mime_type, "application/pdf");
    assert_eq!(e.encoded, "aGVs");

    let e = encode_attachment(&attachment("photo.JPG", b""));
    assert_eq!(e.mime_type, "image/jpeg");
    assert_eq!(e.encoded, "");
}

#[test]
fn build_email_with_boundary_encodes_each_attachment() {
    let raw = build_email_with_boundary(
        "r@example.com",
        "Files",
        "See attached",
        &[attachment("notes", b"hell")],
        "boundary_x",
    );
    assert_eq!(
        raw,
        "From: me\r\nTo: r@example.com\r\nSubject: Files\r\nMIME-Version: 1.0\r\n\
         Content-Type: multipart/mixed; boundary=\"boundary_x\"\r\n\r\n\
         --boundary_x\r\nContent-Type: text/plain; charset=UTF-8\r\n\r\nSee attached\r\n\r\n\
         --boundary_x\r\nContent-Type: application/octet-stream\r\n\
         Content-Disposition: attachment; filename=\"notes\"\r\n\
         Content-Transfer-Encoding: base64\r\n\r\naGVsbA==\r\n\r\n--boundary_x--"
    );
}

#[test]
fn build_email_with_attachments_uses_a_generated_boundary() {
    let raw = build_email("r@example.com", "Files", "x", &[attachment("a.txt", b"abc")]);
    let marker = "Content-Type: multipart/mixed; boundary=\"";
    let start = raw.find(marker).unwrap() + marker.len();
    let boundary = &raw[start..start + "boundary_".len() + 32];
    assert!(boundary.starts_with("boundary_"));
    assert!(raw.ends_with(&format!("--{}--", boundary)));
    assert!(raw.contains("Content-Type: text/plain\r\n"));
    assert!(raw.contains("YWJj"));
}

#[test]
fn validated_fields_leave_exactly_five_header_lines() {
    let to = "someone@example.com";
    let subject = "Quarterly report";
    assert!(validate_header_field(to, "to").is_ok());
    assert!(validate_header_field(subject, "subject").is_ok());
    let raw = build_email(to, subject, "line one\r\n\r\nline two", &[attachment("r.csv", b"1,2")]);
    let end = raw.find("\r\n\r\n").unwrap();
    let lines: Vec<&str> = raw[..end].split("\r\n").collect();
    assert_eq!(lines.len(), 5);
    assert_eq!(lines[0], "From: me");
    assert_eq!(lines[1], "To: someone@example.com");
    assert_eq!(lines[2], "Subject: Quarterly report");
    assert_eq!(lines[3], "MIME-Version: 1.0");
    assert!(lines[4].starts_with("Content-Type: multipart/mixed; boundary=\"boundary_"));
}

#[test]
fn unvalidated_subject_would_inject_a_header() {
    let subject = "Hi\r\nBcc: intruder@example.com";
    assert!(validate_header_field(subject, "subject").is_err());
    let raw = build_email("a@example.com", subject, "Body", &[]);
    let end = raw.find("\r\n\r\n").unwrap();
    assert_eq!(raw[..end].split("\r\n").count(), 6);
}

#[test]
fn render_for_debug_shows_each_crlf() {
    assert_eq!(render_for_debug("a\r\nb"), "a\\r\\n\nb");
    assert_eq!(render_for_debug("\r\r\n\n"), "\r\\r\\n\n\n");
    assert_eq!(render_for_debug("no breaks"), "no breaks");
    assert_eq!(render_for_debug(""), "");
    let raw = build_email("t@example.com", "S", "Body", &[]);
    assert_eq!(render_for_debug(&raw), raw.replace("\r\n", "\\r\\n\n"));
}

#[test]
fn attachment_payload_decodes_to_the_file_bytes() {
    let data: Vec<u8> = (0u8..=255).collect();
    let e = encode_attachment(&attachment("all.bin", &data));
    let alphabet = "ABCDEFGHIJKLMNOPQRSTUVWXYZabcdefghijklmnopqrstuvwxyz0123456789+/";
    let mut bits: Vec<u8> = Vec::new();
    for c in e.encoded.trim_end_matches('=').chars() {
        let v = alphabet.find(c).unwrap() as u8;
        for k in (0..6).rev() {
            bits.push((v >> k) & 1);
        }
    }
    let decoded: Vec<u8> = bits
        .chunks(8)
        .filter(|chunk| chunk.len() == 8)
        .map(|chunk| chunk.iter().fold(0u8, |acc, b| (acc << 1) | b))
        .collect();
    assert_eq!(decoded, data);
}

#[test]
fn body_line_ends_become_crlf() {
    assert_eq!(normalize_text("a\nb"), "a\r\nb");
    assert_eq!(normalize_text("a\rb"), "a\r\nb");
    assert_eq!(normalize_text("a\r\nb"), "a\r\nb");
    assert_eq!(normalize_text("\n\r"), "\r\n\r\n");
    assert_eq!(normalize_text("\r\r\n"), "\r\n\r\n");
    assert_eq!(normalize_text(""), "");
    let raw = build_email("t@example.com", "S", "one\ntwo\rthree", &[]);
    assert!(raw.ends_with("\r\n\r\none\r\ntwo\r\nthree"));
}

#[test]
fn message_has_only_crlf_line_ends() {
    let raw = build_email(
        "t@example.com",
        "S",
        "bare\nlf and bare\rcr\r\n",
        &[attachment("a.txt", b"x\ny")],
    );
    let chars: Vec<char> = raw.chars().collect();
    for (i, c) in chars.iter().enumerate() {
        if *c == '\r' {
            assert_eq!(chars.get(i + 1), Some(&'\n'));
        }
        if *c == '\n' {
            assert!(i > 0 && chars[i - 1] == '\r');
        }
    }
}

#[test]
fn builds_with_attachments_differ_only_in_the_boundary() {
    let files = [attachment("a.txt", b"abc"), attachment("b.bin", b"\x00\x01")];
    let r1 = build_email_with_boundary("t@example.com", "S", "Body", &files, "boundary_1111");
    let r2 = build_email_with_boundary("t@example.com", "S", "Body", &files, "boundary_2222");
    assert_ne!(r1, r2);
    assert_eq!(r1.replace("boundary_1111", "boundary_2222"), r2);
    let p1 = build_email_with_boundary("t@example.com", "S", "Body", &[], "boundary_1111");
    let p2 = build_email_with_boundary("t@example.com", "S", "Body", &[], "boundary_2222");
    assert_eq!(p1, p2);
}
