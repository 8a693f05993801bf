use vstd::prelude::*;
use crate::boundary::{
    boundary_text, generate_boundary, is_generated_boundary, lemma_boundary_text_has_no_line_break,
};
use crate::header::{has_line_break, is_line_break};
use crate::transfer_encoding::{base64_decode, base64_encode, lemma_base64_round_trip};

verus! {

/// A file to attach: its name (the last component of its path) and its
/// contents.
pub struct Attachment {
    pub filename: String,
    pub data: Vec<u8>,
}

/// An attachment made ready for the message: its name, its MIME type and
/// its contents in base64.
pub struct EncodedAttachment {
    pub filename: String,
    pub mime_type: String,
    pub encoded: String,
}

/// What an encoded attachment puts into the message.
pub struct AttachmentText {
    pub filename: Seq<char>,
    pub mime_type: Seq<char>,
    pub encoded: Seq<char>,
}

impl View for EncodedAttachment {
    type V = AttachmentText;

    open spec fn view(&self) -> AttachmentText {
        AttachmentText {
            filename: self.filename@,
            mime_type: self.mime_type@,
            encoded: self.encoded@,
        }
    }
}

/// The MIME type that `mime_guess` guesses from a file name's extension,
/// written out (`application/octet-stream` where it knows none).
pub uninterp spec fn guessed_mime_type(filename: Seq<char>) -> Seq<char>;

/// The MIME type for a file, as `mime_guess` guesses it from the file
/// name's extension, falling back to `application/octet-stream`.
/// Calls `mime_guess::from_path`, `MimeGuess::first_or_octet_stream` and
/// writes the result out. The contract names the result and states one
/// fact that the crate documents: without an extension there is no guess.
#[verifier::external_body]
fn guess_mime_type(filename: &str) -> (mime: String)
    ensures
        mime@ == guessed_mime_type(filename@),
        !filename@.contains('.') ==> mime@ == "application/octet-stream"@,
{
    mime_guess::from_path(filename).first_or_octet_stream().to_string()
}

/// A length of input that the base64 encoder can size its output for.
pub open spec fn encodable_len(len: nat) -> bool {
    len / 3 * 4 + 4 <= usize::MAX
}

/// Encodes bytes with `base64::engine::general_purpose::STANDARD`
/// (`Engine::encode`): the standard alphabet of RFC 4648 with padding, as
/// the crate documents it. `Engine::encode` panics where the output length
/// overflows `usize`; `requires` leaves those inputs out.
#[verifier::external_body]
fn encode_base64(data: &[u8]) -> (text: String)
    requires
        encodable_len(data@.len()),
    ensures
        text@ == base64_encode(data@),
{
    base64::Engine::encode(&base64::engine::general_purpose::STANDARD, data)
}

/// What an attachment becomes in the message.
pub open spec fn attachment_text(a: Attachment) -> AttachmentText {
    AttachmentText {
        filename: a.filename@,
        mime_type: guessed_mime_type(a.filename@),
        encoded: base64_encode(a.data@),
    }
}

/// Makes an attachment ready for the message: guesses its MIME type from
/// its file name and encodes its contents in base64.
pub fn encode_attachment(attachment: &Attachment) -> (encoded: EncodedAttachment)
    requires
        encodable_len(attachment.data@.len()),
    ensures
        encoded@ == attachment_text(*attachment),
        encoded.filename@ == attachment.filename@,
        encoded.mime_type@ == guessed_mime_type(attachment.filename@),
        encoded.encoded@ == base64_encode(attachment.data@),
{
    let mime_type = guess_mime_type(attachment.filename.as_str());
    let encoded = encode_base64(attachment.data.as_slice());
    EncodedAttachment { filename: attachment.filename.clone(), mime_type, encoded }
}

/// The line end of Internet mail.
pub open spec fn crlf() -> Seq<char> {
    seq!['\r', '\n']
}

/// Lines joined by CRLF.
pub open spec fn crlf_join(lines: Seq<Seq<char>>) -> Seq<char>
    decreases lines.len(),
{
    if lines.len() == 0 {
        Seq::empty()
    } else if lines.len() == 1 {
        lines[0]
    } else {
        crlf_join(lines.drop_last()) + crlf() + lines.last()
    }
}

/// The Content-Type header: plain text, or multipart with the boundary
/// where there are attachments.
pub open spec fn content_type_header(boundary: Seq<char>, multipart: bool) -> Seq<char> {
    if multipart {
        "Content-Type: multipart/mixed; boundary=\""@ + boundary + "\""@
    } else {
        "Content-Type: text/plain; charset=UTF-8"@
    }
}

/// The header lines of a message, in order.
pub open spec fn email_headers(
    to: Seq<char>,
    subject: Seq<char>,
    boundary: Seq<char>,
    multipart: bool,
) -> Seq<Seq<char>> {
    seq![
        "From: me"@,
        "To: "@ + to,
        "Subject: "@ + subject,
        "MIME-Version: 1.0"@,
        content_type_header(boundary, multipart),
    ]
}

/// The delimiter line that opens a part of a multipart body, with its CRLF.
pub open spec fn part_delimiter(boundary: Seq<char>) -> Seq<char> {
    "--"@ + boundary + crlf()
}

/// The part of a multipart body that carries one attachment.
pub open spec fn attachment_part(boundary: Seq<char>, a: AttachmentText) -> Seq<char> {
    part_delimiter(boundary) + "Content-Type: "@ + a.mime_type + crlf()
        + "Content-Disposition: attachment; filename=\""@ + a.filename + "\""@ + crlf()
        + "Content-Transfer-Encoding: base64"@ + crlf() + crlf() + a.encoded + crlf() + crlf()
}

/// The part of a multipart body that carries the text.
pub open spec fn text_part(body: Seq<char>, boundary: Seq<char>) -> Seq<char> {
    part_delimiter(boundary) + "Content-Type: text/plain; charset=UTF-8"@ + crlf() + crlf() + body
        + crlf() + crlf()
}

/// The parts of a multipart body up to its closing delimiter: the text
/// part, then one part for each attachment, in order.
pub open spec fn multipart_parts(
    body: Seq<char>,
    boundary: Seq<char>,
    attachments: Seq<AttachmentText>,
) -> Seq<char>
    decreases attachments.len(),
{
    if attachments.len() == 0 {
        text_part(body, boundary)
    } else {
        multipart_parts(body, boundary, attachments.drop_last()) + attachment_part(
            boundary,
            attachments.last(),
        )
    }
}

/// The body of a message: the text with its line ends made CRLF, alone,
/// or where there are attachments, in a multipart body of the text part,
/// one part for each attachment and the closing delimiter.
pub open spec fn email_body(
    body: Seq<char>,
    boundary: Seq<char>,
    attachments: Seq<AttachmentText>,
) -> Seq<char> {
    let text = normalize_line_ends(body);
    if attachments.len() == 0 {
        text
    } else {
        multipart_parts(text, boundary, attachments) + "--"@ + boundary + "--"@
    }
}

/// A text with every line end made CRLF: a CRLF stays, and a CR or LF
/// on its own becomes CRLF, as RFC 822 has line ends.
pub open spec fn normalize_line_ends(s: Seq<char>) -> Seq<char>
    decreases s.len(),
{
    if s.len() == 0 {
        Seq::empty()
    } else if s.len() >= 2 && s[0] == '\r' && s[1] == '\n' {
        crlf() + normalize_line_ends(s.skip(2))
    } else if is_line_break(s[0]) {
        crlf() + normalize_line_ends(s.skip(1))
    } else {
        seq![s[0]] + normalize_line_ends(s.skip(1))
    }
}

fn chars_of(text: &str) -> (chars: Vec<char>)
    ensures
        chars@ == text@,
{
    broadcast use vstd::string::group_string_axioms;

    let mut chars: Vec<char> = Vec::new();
    for c in it: text.chars()
        invariant
            it.seq() == text@,
            chars@ == text@.take(it.index() as int),
    {
        chars.push(c);
        assert(text@.take(it.index() + 1) =~= text@.take(it.index() as int).push(c));
    }
    assert(chars@ =~= text@);
    chars
}

/// Makes every line end of a text CRLF: a CR or an LF on its own becomes
/// CRLF, and a CRLF stays as it is.
pub fn normalize_text(text: &str) -> (normalized: String)
    ensures
        normalized@ == normalize_line_ends(text@),
{
    let chars = chars_of(text);
    let n = chars.len();
    let mut out = String::new();
    let mut i: usize = 0;
    assert(chars@.skip(0) =~= chars@);
    while i < n
        invariant
            n == chars@.len(),
            chars@ == text@,
            i <= n,
            normalize_line_ends(text@) == out@ + normalize_line_ends(chars@.skip(i as int)),
        decreases n - i,
    {
        let rest = Ghost(chars@.skip(i as int));
        let ghost before = out@;
        let c = chars[i];
        proof {
            reveal_strlit("\r\n");
        }
        if c == '\r' && i + 1 < n && chars[i + 1] == '\n' {
            out.append("\r\n");
            assert(rest@.skip(2) =~= chars@.skip(i + 2));
            assert(before + (crlf() + normalize_line_ends(rest@.skip(2))) =~= out@
                + normalize_line_ends(chars@.skip(i + 2)));
            i = i + 2;
        } else if c == '\r' || c == '\n' {
            out.append("\r\n");
            assert(rest@.skip(1) =~= chars@.skip(i + 1));
            assert(before + (crlf() + normalize_line_ends(rest@.skip(1))) =~= out@
                + normalize_line_ends(chars@.skip(i + 1)));
            i = i + 1;
        } else {
            push_char(&mut out, c);
            assert(rest@.skip(1) =~= chars@.skip(i + 1));
            assert(before + (seq![c] + normalize_line_ends(rest@.skip(1))) =~= out@
                + normalize_line_ends(chars@.skip(i + 1)));
            i = i + 1;
        }
    }
    assert(chars@.skip(n as int) =~= Seq::<char>::empty());
    out
}

/// The header block of a message: its header lines joined by CRLF.
pub open spec fn header_block(
    to: Seq<char>,
    subject: Seq<char>,
    boundary: Seq<char>,
    multipart: bool,
) -> Seq<char> {
    crlf_join(email_headers(to, subject, boundary, multipart))
}

/// A whole RFC 822 message: the header lines, a blank line, the body.
pub open spec fn email_text(
    to: Seq<char>,
    subject: Seq<char>,
    body: Seq<char>,
    boundary: Seq<char>,
    attachments: Seq<AttachmentText>,
) -> Seq<char> {
    header_block(to, subject, boundary, attachments.len() > 0) + crlf() + crlf() + email_body(
        body,
        boundary,
        attachments,
    )
}

proof fn lemma_crlf_join_five(lines: Seq<Seq<char>>)
    requires
        lines.len() == 5,
    ensures
        crlf_join(lines) == lines[0] + crlf() + lines[1] + crlf() + lines[2] + crlf() + lines[3]
            + crlf() + lines[4],
{
    reveal_with_fuel(crlf_join, 5);
    assert(lines.drop_last().drop_last().drop_last().drop_last() =~= seq![lines[0]]);
    assert(lines.drop_last().drop_last().drop_last().last() == lines[1]);
    assert(lines.drop_last().drop_last().last() == lines[2]);
    assert(lines.drop_last().last() == lines[3]);
}

fn concat(a: &str, b: &str) -> (s: String)
    ensures
        s@ == a@ + b@,
{
    let mut s = String::from_str(a);
    s.append(b);
    s
}

fn header_block_text(to: &str, subject: &str, boundary: &str, multipart: bool) -> (block: String)
    ensures
        block@ == header_block(to@, subject@, boundary@, multipart),
{
    proof {
        reveal_strlit("\r\n");
        lemma_crlf_join_five(email_headers(to@, subject@, boundary@, multipart));
    }
    let to_line = concat("To: ", to);
    let subject_line = concat("Subject: ", subject);
    let content_type = if multipart {
        let mut line = concat("Content-Type: multipart/mixed; boundary=\"", boundary);
        line.append("\"");
        line
    } else {
        String::from_str("Content-Type: text/plain; charset=UTF-8")
    };
    let mut block = String::from_str("From: me");
    block.append("\r\n");
    block.append(to_line.as_str());
    block.append("\r\n");
    block.append(subject_line.as_str());
    block.append("\r\n");
    block.append("MIME-Version: 1.0");
    block.append("\r\n");
    block.append(content_type.as_str());
    block
}

fn attachment_part_text(boundary: &str, a: &EncodedAttachment) -> (part: String)
    ensures
        part@ == attachment_part(boundary@, a@),
{
    proof {
        reveal_strlit("\r\n");
    }
    let mut part = String::from_str("--");
    part.append(boundary);
    part.append("\r\n");
    part.append("Content-Type: ");
    part.append(a.mime_type.as_str());
    part.append("\r\n");
    part.append("Content-Disposition: attachment; filename=\"");
    part.append(a.filename.as_str());
    part.append("\"");
    part.append("\r\n");
    part.append("Content-Transfer-Encoding: base64");
    part.append("\r\n");
    part.append("\r\n");
    part.append(a.encoded.as_str());
    part.append("\r\n");
    part.append("\r\n");
    part
}

fn multipart_body_text(body: &str, boundary: &str, attachments: &[EncodedAttachment]) -> (text:
    String)
    requires
        attachments@.len() > 0,
    ensures
        text@ == multipart_parts(body@, boundary@, attachments@.map_values(|a: EncodedAttachment| a@))
            + "--"@ + boundary@ + "--"@,
{
    proof {
        reveal_strlit("\r\n");
    }
    let ghost parts = attachments@.map_values(|a: EncodedAttachment| a@);
    let mut text = String::from_str("--");
    text.append(boundary);
    text.append("\r\n");
    text.append("Content-Type: text/plain; charset=UTF-8");
    text.append("\r\n");
    text.append("\r\n");
    text.append(body);
    text.append("\r\n");
    text.append("\r\n");
    assert(parts.take(0) =~= Seq::<AttachmentText>::empty());
    let n = attachments.len();
    for i in 0..n
        invariant
            n == attachments@.len(),
            parts == attachments@.map_values(|a: EncodedAttachment| a@),
            text@ == multipart_parts(body@, boundary@, parts.take(i as int)),
    {
        let part = attachment_part_text(boundary, &attachments[i]);
        text.append(part.as_str());
        assert(parts.take(i + 1).drop_last() =~= parts.take(i as int));
    }
    assert(parts.take(n as int) =~= parts);
    text.append("--");
    text.append(boundary);
    text.append("--");
    text
}

/// Lays out a message from its parts: the recipient, the subject, the
/// text, the MIME boundary and the attachments, each already encoded.
pub fn compose_email(
    to: &str,
    subject: &str,
    body: &str,
    boundary: &str,
    attachments: &[EncodedAttachment],
) -> (raw: String)
    ensures
        raw@ == email_text(
            to@,
            subject@,
            body@,
            boundary@,
            attachments@.map_values(|a: EncodedAttachment| a@),
        ),
{
    proof {
        reveal_strlit("\r\n");
    }
    let multipart = attachments.len() > 0;
    let body_text = normalize_text(body);
    let mut raw = header_block_text(to, subject, boundary, multipart);
    raw.append("\r\n");
    raw.append("\r\n");
    if multipart {
        let text = multipart_body_text(body_text.as_str(), boundary, attachments);
        raw.append(text.as_str());
    } else {
        raw.append(body_text.as_str());
    }
    raw
}

/// An attachment's part names the file exactly as it was given, carries
/// the MIME type guessed from that name, and its bytes in base64.
pub proof fn lemma_attachment_text_keeps_file(a: Attachment)
    ensures
        attachment_text(a).filename == a.filename@,
        attachment_text(a).mime_type == guessed_mime_type(a.filename@),
        attachment_text(a).encoded == base64_encode(a.data@),
{
}

/// What a list of attachments becomes in the message.
pub open spec fn attachment_texts(attachments: Seq<Attachment>) -> Seq<AttachmentText> {
    attachments.map_values(|a: Attachment| attachment_text(a))
}

/// The base64 payload of each attachment's part decodes back to exactly
/// that attachment's bytes: nothing is lost, added or reordered.
pub proof fn lemma_attachment_payloads_decode(attachments: Seq<Attachment>)
    ensures
        attachment_texts(attachments).len() == attachments.len(),
        forall|i: int|
            0 <= i < attachments.len() ==> base64_decode(
                (#[trigger] attachment_texts(attachments)[i]).encoded,
            ) == Some(attachments[i].data@),
{
    assert forall|i: int| 0 <= i < attachments.len() implies base64_decode(
        (#[trigger] attachment_texts(attachments)[i]).encoded,
    ) == Some(attachments[i].data@) by {
        lemma_base64_round_trip(attachments[i].data@);
    }
}

/// Without attachments the boundary plays no part: two builds of the same
/// plain message give the same text, whatever boundaries they drew.
pub proof fn lemma_plain_message_ignores_boundary(
    to: Seq<char>,
    subject: Seq<char>,
    body: Seq<char>,
    b1: Seq<char>,
    b2: Seq<char>,
)
    ensures
        email_text(to, subject, body, b1, Seq::empty()) == email_text(
            to,
            subject,
            body,
            b2,
            Seq::empty(),
        ),
{
}

/// Every attachment is small enough for the base64 encoder.
pub open spec fn all_encodable(attachments: Seq<Attachment>) -> bool {
    forall|i: int| 0 <= i < attachments.len() ==> encodable_len(#[trigger] attachments[i].data@.len())
}

/// Builds a message with the given MIME boundary: guesses the MIME type of
/// each attachment and encodes it, then lays the message out.
pub fn build_email_with_boundary(
    to: &str,
    subject: &str,
    body: &str,
    attachments: &[Attachment],
    boundary: &str,
) -> (raw: String)
    requires
        all_encodable(attachments@),
    ensures
        raw@ == email_text(to@, subject@, body@, boundary@, attachment_texts(attachments@)),
{
    let mut encoded: Vec<EncodedAttachment> = Vec::new();
    let n = attachments.len();
    for i in 0..n
        invariant
            n == attachments@.len(),
            all_encodable(attachments@),
            encoded@.len() == i,
            forall|j: int| 0 <= j < i ==> (#[trigger] encoded@[j])@ == attachment_text(attachments@[j]),
    {
        let e = encode_attachment(&attachments[i]);
        encoded.push(e);
    }
    let raw = compose_email(to, subject, body, boundary, encoded.as_slice());
    assert(encoded@.map_values(|a: EncodedAttachment| a@) =~= attachment_texts(attachments@));
    raw
}

/// Builds an RFC 822 message, with a fresh random MIME boundary: the
/// headers From, To, Subject, MIME-Version and Content-Type, a blank line,
/// then the text alone, or where there are attachments, a multipart body
/// of the text and one base64 part for each attachment. Lines end in CRLF.
pub fn build_email(to: &str, subject: &str, body: &str, attachments: &[Attachment]) -> (raw: String)
    requires
        all_encodable(attachments@),
    ensures
        exists|boundary: Seq<char>|
            is_generated_boundary(boundary) && raw@ == #[trigger] email_text(
                to@,
                subject@,
                body@,
                boundary,
                attachment_texts(attachments@),
            ),
{
    let boundary = generate_boundary();
    build_email_with_boundary(to, subject, body, attachments, boundary.as_str())
}

/// What a CRLF shows as in the verbose rendering of a message: the four
/// characters `\r\n`, then a line feed.
pub open spec fn escaped_crlf() -> Seq<char> {
    seq!['\\', 'r', '\\', 'n', '\n']
}

/// The verbose rendering of a message: each CRLF, from left to right,
/// written as `escaped_crlf()`, every other character as it is.
pub open spec fn debug_rendering(s: Seq<char>) -> Seq<char>
    decreases s.len(),
{
    if s.len() == 0 {
        Seq::empty()
    } else if s.len() >= 2 && s[0] == '\r' && s[1] == '\n' {
        escaped_crlf() + debug_rendering(s.skip(2))
    } else {
        seq![s[0]] + debug_rendering(s.skip(1))
    }
}

/// Appends a character with `String::push`.
#[verifier::external_body]
fn push_char(s: &mut String, c: char)
    ensures
        final(s)@ == old(s)@.push(c),
{
    s.push(c);
}

/// Renders a message for the verbose output, so that its line ends can be
/// seen: each CRLF becomes `\r\n` followed by a line break.
pub fn render_for_debug(raw: &str) -> (shown: String)
    ensures
        shown@ == debug_rendering(raw@),
{
    let chars = chars_of(raw);
    let n = chars.len();
    let mut shown = String::new();
    let mut i: usize = 0;
    assert(chars@.skip(0) =~= chars@);
    while i < n
        invariant
            n == chars@.len(),
            chars@ == raw@,
            i <= n,
            debug_rendering(raw@) == shown@ + debug_rendering(chars@.skip(i as int)),
        decreases n - i,
    {
        let rest = Ghost(chars@.skip(i as int));
        if chars[i] == '\r' && i + 1 < n && chars[i + 1] == '\n' {
            proof {
                reveal_strlit("\\r\\n\n");
            }
            let ghost before = shown@;
            shown.append("\\r\\n\n");
            assert(rest@.skip(2) =~= chars@.skip(i + 2));
            assert(debug_rendering(rest@) == escaped_crlf() + debug_rendering(rest@.skip(2)));
            assert(before + (escaped_crlf() + debug_rendering(rest@.skip(2))) =~= shown@
                + debug_rendering(chars@.skip(i + 2)));
            i = i + 2;
        } else {
            let ghost before = shown@;
            let c = chars[i];
            push_char(&mut shown, c);
            assert(rest@.skip(1) =~= chars@.skip(i + 1));
            assert(debug_rendering(rest@) == seq![c] + debug_rendering(rest@.skip(1)));
            assert(before + (seq![c] + debug_rendering(rest@.skip(1))) =~= shown@
                + debug_rendering(chars@.skip(i + 1)));
            i = i + 1;
        }
    }
    assert(chars@.skip(n as int) =~= Seq::<char>::empty());
    shown
}

/// A blank line starts at index `i` of `s`: the CRLF that ends a line,
/// then the CRLF of an empty one.
pub open spec fn blank_line_at(s: Seq<char>, i: int) -> bool {
    0 <= i && i + 4 <= s.len() && s.subrange(i, i + 4) == crlf() + crlf()
}

/// The first blank line of `s` starts at index `k`: there the header
/// section of a message ends.
pub open spec fn first_blank_line_at(s: Seq<char>, k: int) -> bool {
    blank_line_at(s, k) && forall|i: int| 0 <= i < k ==> !blank_line_at(s, i)
}

spec fn no_crlf_cr(s: Seq<char>) -> bool {
    forall|i: int|
        0 <= i && i + 2 < s.len() ==> !(#[trigger] s[i] == '\r' && s[i + 1] == '\n' && s[i + 2]
            == '\r')
}

proof fn lemma_concat_no_line_break(a: Seq<char>, b: Seq<char>)
    requires
        !has_line_break(a),
        !has_line_break(b),
    ensures
        !has_line_break(a + b),
{
    let s = a + b;
    assert forall|i: int| 0 <= i < s.len() implies !is_line_break(#[trigger] s[i]) by {
        if i < a.len() {
            assert(s[i] == a[i]);
        } else {
            assert(s[i] == b[i - a.len()]);
        }
    }
}

proof fn lemma_crlf_join_shape(lines: Seq<Seq<char>>)
    requires
        lines.len() > 0,
        forall|j: int| 0 <= j < lines.len() ==> (#[trigger] lines[j]).len() > 0,
        forall|j: int| 0 <= j < lines.len() ==> !has_line_break(#[trigger] lines[j]),
    ensures
        crlf_join(lines).len() > 0,
        !is_line_break(crlf_join(lines).last()),
        no_crlf_cr(crlf_join(lines)),
    decreases lines.len(),
{
    let s = crlf_join(lines);
    if lines.len() == 1 {
        let l = lines[0];
        assert(!has_line_break(l));
        assert(!is_line_break(l[l.len() - 1]));
        assert forall|i: int| 0 <= i && i + 2 < s.len() implies !(#[trigger] s[i] == '\r' && s[i
            + 1] == '\n' && s[i + 2] == '\r') by {
            assert(!is_line_break(l[i]));
        }
    } else {
        let rest = lines.drop_last();
        let l = lines.last();
        assert(l == lines[lines.len() - 1]);
        assert forall|j: int| 0 <= j < rest.len() implies (#[trigger] rest[j]).len() > 0
            && !has_line_break(rest[j]) by {
            assert(rest[j] == lines[j]);
        }
        lemma_crlf_join_shape(rest);
        let a = crlf_join(rest);
        assert(s == a + crlf() + l);
        assert(!has_line_break(l));
        assert(!is_line_break(l[l.len() - 1]));
        assert(s.last() == l[l.len() - 1]);
        assert(!is_line_break(a.last()));
        assert forall|i: int| 0 <= i && i + 2 < s.len() implies !(#[trigger] s[i] == '\r' && s[i
            + 1] == '\n' && s[i + 2] == '\r') by {
            let n = a.len() as int;
            if i + 2 < n {
                assert(s[i] == a[i] && s[i + 1] == a[i + 1] && s[i + 2] == a[i + 2]);
            } else if i == n - 2 {
                assert(s[i + 1] == a[n - 1]);
            } else if i == n - 1 {
                assert(s[i] == a[n - 1]);
            } else if i == n {
                assert(s[i + 2] == l[0]);
                assert(!is_line_break(l[0]));
            } else if i == n + 1 {
                assert(s[i] == '\n');
            } else {
                assert(s[i] == l[i - n - 2]);
                assert(!is_line_break(l[i - n - 2]));
            }
        }
    }
}

/// The header lines are nonempty and hold no line break where the
/// recipient, the subject and the boundary hold none.
proof fn lemma_header_lines_clean(
    to: Seq<char>,
    subject: Seq<char>,
    boundary: Seq<char>,
    multipart: bool,
)
    requires
        !has_line_break(to),
        !has_line_break(subject),
        !has_line_break(boundary),
    ensures
        email_headers(to, subject, boundary, multipart).len() == 5,
        forall|j: int|
            0 <= j < 5 ==> (#[trigger] email_headers(to, subject, boundary, multipart)[j]).len()
                > 0,
        forall|j: int|
            0 <= j < 5 ==> !has_line_break(
                #[trigger] email_headers(to, subject, boundary, multipart)[j],
            ),
{
    let lines = email_headers(to, subject, boundary, multipart);
    reveal_strlit("From: me");
    reveal_strlit("To: ");
    reveal_strlit("Subject: ");
    reveal_strlit("MIME-Version: 1.0");
    reveal_strlit("Content-Type: multipart/mixed; boundary=\"");
    reveal_strlit("\"");
    reveal_strlit("Content-Type: text/plain; charset=UTF-8");
    assert(!has_line_break("From: me"@));
    assert(!has_line_break("To: "@));
    assert(!has_line_break("Subject: "@));
    assert(!has_line_break("MIME-Version: 1.0"@));
    assert(!has_line_break("Content-Type: multipart/mixed; boundary=\""@));
    assert(!has_line_break("\""@));
    assert(!has_line_break("Content-Type: text/plain; charset=UTF-8"@));
    lemma_concat_no_line_break("To: "@, to);
    lemma_concat_no_line_break("Subject: "@, subject);
    lemma_concat_no_line_break("Content-Type: multipart/mixed; boundary=\""@, boundary);
    lemma_concat_no_line_break("Content-Type: multipart/mixed; boundary=\""@ + boundary, "\""@);
    assert forall|j: int| 0 <= j < lines.len() implies (#[trigger] lines[j]).len() > 0
        && !has_line_break(lines[j]) by {
        if j == 4 {
            if multipart {
                assert(lines[j] == "Content-Type: multipart/mixed; boundary=\""@ + boundary + "\""@);
            }
        }
    }
}

/// Where the recipient and the subject hold no carriage return or line
/// feed (the values that `validate_header_field` accepts) and the boundary
/// is one that `generate_boundary` makes, the header section of the
/// message, everything before its first blank line, is exactly its five
/// header lines joined by CRLF, and none of them holds a line break: no
/// field can add a header line of its own or end the headers early.
pub proof fn lemma_validated_fields_keep_headers_intact(
    to: Seq<char>,
    subject: Seq<char>,
    body: Seq<char>,
    boundary: Seq<char>,
    attachments: Seq<AttachmentText>,
)
    requires
        !has_line_break(to),
        !has_line_break(subject),
        is_generated_boundary(boundary),
    ensures
        ({
            let raw = email_text(to, subject, body, boundary, attachments);
            let lines = email_headers(to, subject, boundary, attachments.len() > 0);
            let k = crlf_join(lines).len() as int;
            &&& lines.len() == 5
            &&& first_blank_line_at(raw, k)
            &&& raw.take(k) == crlf_join(lines)
            &&& forall|j: int| 0 <= j < lines.len() ==> !has_line_break(#[trigger] lines[j])
        }),
{
    let bytes = choose|bytes: Seq<u8>| bytes.len() == 16 && boundary == boundary_text(bytes);
    lemma_boundary_text_has_no_line_break(bytes);
    let multipart = attachments.len() > 0;
    let raw = email_text(to, subject, body, boundary, attachments);
    let lines = email_headers(to, subject, boundary, multipart);
    lemma_header_lines_clean(to, subject, boundary, multipart);
    lemma_header_section_ends_at_blank_line(lines, email_body(body, boundary, attachments));
}

proof fn lemma_header_section_ends_at_blank_line(lines: Seq<Seq<char>>, rest: Seq<char>)
    requires
        lines.len() > 0,
        forall|j: int| 0 <= j < lines.len() ==> (#[trigger] lines[j]).len() > 0,
        forall|j: int| 0 <= j < lines.len() ==> !has_line_break(#[trigger] lines[j]),
    ensures
        first_blank_line_at(crlf_join(lines) + crlf() + crlf() + rest, crlf_join(lines).len() as int),
        (crlf_join(lines) + crlf() + crlf() + rest).take(crlf_join(lines).len() as int) == crlf_join(lines),
{
    let raw = crlf_join(lines) + crlf() + crlf() + rest;
    lemma_crlf_join_shape(lines);
    let h = crlf_join(lines);
    let k = h.len() as int;
    assert(raw.take(k) =~= h);
    assert(raw.subrange(k, k + 4) =~= crlf() + crlf());
    assert forall|i: int| 0 <= i < k implies !blank_line_at(raw, i) by {
        if blank_line_at(raw, i) {
            assert(raw.subrange(i, i + 4)[0] == raw[i]);
            assert(raw.subrange(i, i + 4)[1] == raw[i + 1]);
            assert(raw.subrange(i, i + 4)[2] == raw[i + 2]);
            assert(raw[i] == '\r' && raw[i + 1] == '\n' && raw[i + 2] == '\r');
            if i + 2 < k {
                assert(raw[i] == h[i] && raw[i + 1] == h[i + 1] && raw[i + 2] == h[i + 2]);
            } else if i == k - 2 {
                assert(raw[i + 1] == h[k - 1]);
            } else {
                assert(raw[i] == h[k - 1]);
            }
        }
    }
}

/// At index `i` of `s`, a CR is followed by an LF and an LF follows a CR.
pub open spec fn line_end_ok_at(s: Seq<char>, i: int) -> bool {
    &&& s[i] == '\r' ==> i + 1 < s.len() && s[i + 1] == '\n'
    &&& s[i] == '\n' ==> i > 0 && s[i - 1] == '\r'
}

/// Every line end of `s` is a CRLF: there is no CR or LF on its own.
pub open spec fn crlf_line_ends(s: Seq<char>) -> bool {
    forall|i: int| 0 <= i < s.len() ==> #[trigger] line_end_ok_at(s, i)
}

proof fn lemma_line_ends_concat(a: Seq<char>, b: Seq<char>)
    requires
        crlf_line_ends(a),
        crlf_line_ends(b),
    ensures
        crlf_line_ends(a + b),
{
    let s = a + b;
    assert forall|i: int| 0 <= i < s.len() implies #[trigger] line_end_ok_at(s, i) by {
        if i < a.len() {
            assert(line_end_ok_at(a, i));
            assert(s[i] == a[i]);
            if i + 1 < a.len() {
                assert(s[i + 1] == a[i + 1]);
            }
            if i > 0 {
                assert(s[i - 1] == a[i - 1]);
            }
        } else {
            let j = i - a.len();
            assert(line_end_ok_at(b, j));
            assert(s[i] == b[j]);
            if j + 1 < b.len() {
                assert(s[i + 1] == b[j + 1]);
            }
            if j > 0 {
                assert(s[i - 1] == b[j - 1]);
            }
        }
    }
}

proof fn lemma_no_line_break_line_ends(a: Seq<char>)
    requires
        !has_line_break(a),
    ensures
        crlf_line_ends(a),
{
    assert forall|i: int| 0 <= i < a.len() implies #[trigger] line_end_ok_at(a, i) by {
        assert(!is_line_break(a[i]));
    }
}

proof fn lemma_crlf_line_ends()
    ensures
        crlf_line_ends(crlf()),
{
    assert(line_end_ok_at(crlf(), 0));
    assert(line_end_ok_at(crlf(), 1));
}

/// A normalized text has only CRLF line ends.
pub proof fn lemma_normalized_line_ends(s: Seq<char>)
    ensures
        crlf_line_ends(normalize_line_ends(s)),
    decreases s.len(),
{
    if s.len() > 0 {
        lemma_crlf_line_ends();
        if s.len() >= 2 && s[0] == '\r' && s[1] == '\n' {
            lemma_normalized_line_ends(s.skip(2));
            lemma_line_ends_concat(crlf(), normalize_line_ends(s.skip(2)));
        } else if is_line_break(s[0]) {
            lemma_normalized_line_ends(s.skip(1));
            lemma_line_ends_concat(crlf(), normalize_line_ends(s.skip(1)));
        } else {
            assert(!has_line_break(seq![s[0]]));
            lemma_no_line_break_line_ends(seq![s[0]]);
            lemma_normalized_line_ends(s.skip(1));
            lemma_line_ends_concat(seq![s[0]], normalize_line_ends(s.skip(1)));
        }
    }
}

proof fn lemma_crlf_join_line_ends(lines: Seq<Seq<char>>)
    requires
        forall|j: int| 0 <= j < lines.len() ==> !has_line_break(#[trigger] lines[j]),
    ensures
        crlf_line_ends(crlf_join(lines)),
    decreases lines.len(),
{
    if lines.len() == 0 {
    } else if lines.len() == 1 {
        lemma_no_line_break_line_ends(lines[0]);
    } else {
        let rest = lines.drop_last();
        assert forall|j: int| 0 <= j < rest.len() implies !has_line_break(#[trigger] rest[j]) by {
            assert(rest[j] == lines[j]);
        }
        lemma_crlf_join_line_ends(rest);
        lemma_crlf_line_ends();
        assert(!has_line_break(lines[lines.len() - 1]));
        lemma_no_line_break_line_ends(lines.last());
        lemma_line_ends_concat(crlf_join(rest), crlf());
        lemma_line_ends_concat(crlf_join(rest) + crlf(), lines.last());
    }
}

/// Literal texts of the message that hold no line break.
proof fn lemma_literal_line_ends()
    ensures
        crlf_line_ends("--"@),
        crlf_line_ends("Content-Type: text/plain; charset=UTF-8"@),
        crlf_line_ends("Content-Type: "@),
        crlf_line_ends("Content-Disposition: attachment; filename=\""@),
        crlf_line_ends("\""@),
        crlf_line_ends("Content-Transfer-Encoding: base64"@),
{
    reveal_strlit("--");
    reveal_strlit("Content-Type: text/plain; charset=UTF-8");
    reveal_strlit("Content-Type: ");
    reveal_strlit("Content-Disposition: attachment; filename=\"");
    reveal_strlit("\"");
    reveal_strlit("Content-Transfer-Encoding: base64");
    assert(!has_line_break("--"@));
    assert(!has_line_break("Content-Type: text/plain; charset=UTF-8"@));
    assert(!has_line_break("Content-Type: "@));
    assert(!has_line_break("Content-Disposition: attachment; filename=\""@));
    assert(!has_line_break("\""@));
    assert(!has_line_break("Content-Transfer-Encoding: base64"@));
    lemma_no_line_break_line_ends("--"@);
    lemma_no_line_break_line_ends("Content-Type: text/plain; charset=UTF-8"@);
    lemma_no_line_break_line_ends("Content-Type: "@);
    lemma_no_line_break_line_ends("Content-Disposition: attachment; filename=\""@);
    lemma_no_line_break_line_ends("\""@);
    lemma_no_line_break_line_ends("Content-Transfer-Encoding: base64"@);
}

/// The fields of an attachment that stand in its part hold no line break.
pub open spec fn attachment_fields_clean(a: AttachmentText) -> bool {
    !has_line_break(a.filename) && !has_line_break(a.mime_type) && !has_line_break(a.encoded)
}

proof fn lemma_attachment_part_line_ends(boundary: Seq<char>, a: AttachmentText)
    requires
        !has_line_break(boundary),
        attachment_fields_clean(a),
    ensures
        crlf_line_ends(attachment_part(boundary, a)),
{
    lemma_literal_line_ends();
    lemma_crlf_line_ends();
    lemma_no_line_break_line_ends(boundary);
    lemma_no_line_break_line_ends(a.filename);
    lemma_no_line_break_line_ends(a.mime_type);
    lemma_no_line_break_line_ends(a.encoded);
    let d = "--"@ + boundary;
    lemma_line_ends_concat("--"@, boundary);
    lemma_line_ends_concat(d, crlf());
    let s1 = part_delimiter(boundary) + "Content-Type: "@;
    lemma_line_ends_concat(part_delimiter(boundary), "Content-Type: "@);
    lemma_line_ends_concat(s1, a.mime_type);
    lemma_line_ends_concat(s1 + a.mime_type, crlf());
    let s2 = s1 + a.mime_type + crlf() + "Content-Disposition: attachment; filename=\""@;
    lemma_line_ends_concat(s1 + a.mime_type + crlf(), "Content-Disposition: attachment; filename=\""@);
    lemma_line_ends_concat(s2, a.filename);
    lemma_line_ends_concat(s2 + a.filename, "\""@);
    let s3 = s2 + a.filename + "\""@;
    lemma_line_ends_concat(s3, crlf());
    lemma_line_ends_concat(s3 + crlf(), "Content-Transfer-Encoding: base64"@);
    let s4 = s3 + crlf() + "Content-Transfer-Encoding: base64"@;
    lemma_line_ends_concat(s4, crlf());
    lemma_line_ends_concat(s4 + crlf(), crlf());
    lemma_line_ends_concat(s4 + crlf() + crlf(), a.encoded);
    lemma_line_ends_concat(s4 + crlf() + crlf() + a.encoded, crlf());
    lemma_line_ends_concat(s4 + crlf() + crlf() + a.encoded + crlf(), crlf());
}

proof fn lemma_multipart_line_ends(
    text: Seq<char>,
    boundary: Seq<char>,
    attachments: Seq<AttachmentText>,
)
    requires
        crlf_line_ends(text),
        !has_line_break(boundary),
        forall|i: int| 0 <= i < attachments.len() ==> attachment_fields_clean(#[trigger] attachments[i]),
    ensures
        crlf_line_ends(multipart_parts(text, boundary, attachments)),
    decreases attachments.len(),
{
    if attachments.len() == 0 {
        lemma_literal_line_ends();
        lemma_crlf_line_ends();
        lemma_no_line_break_line_ends(boundary);
        lemma_line_ends_concat("--"@, boundary);
        lemma_line_ends_concat("--"@ + boundary, crlf());
        let p = part_delimiter(boundary);
        lemma_line_ends_concat(p, "Content-Type: text/plain; charset=UTF-8"@);
        let q = p + "Content-Type: text/plain; charset=UTF-8"@;
        lemma_line_ends_concat(q, crlf());
        lemma_line_ends_concat(q + crlf(), crlf());
        lemma_line_ends_concat(q + crlf() + crlf(), text);
        lemma_line_ends_concat(q + crlf() + crlf() + text, crlf());
        lemma_line_ends_concat(q + crlf() + crlf() + text + crlf(), crlf());
    } else {
        let rest = attachments.drop_last();
        assert forall|i: int| 0 <= i < rest.len() implies attachment_fields_clean(#[trigger] rest[i]) by {
            assert(rest[i] == attachments[i]);
        }
        lemma_multipart_line_ends(text, boundary, rest);
        assert(attachment_fields_clean(attachments[attachments.len() - 1]));
        lemma_attachment_part_line_ends(boundary, attachments.last());
        lemma_line_ends_concat(
            multipart_parts(text, boundary, rest),
            attachment_part(boundary, attachments.last()),
        );
    }
}

/// RFC 822 line ends: where the recipient, the subject and the boundary
/// hold no CR or LF (the values that `validate_header_field` accepts, and
/// every boundary that `generate_boundary` makes), and so do the file
/// names, MIME types and payloads of the attachments, every CR of the
/// message is followed by an LF and every LF follows a CR, whatever the
/// body holds.
pub proof fn lemma_message_has_crlf_line_ends(
    to: Seq<char>,
    subject: Seq<char>,
    body: Seq<char>,
    boundary: Seq<char>,
    attachments: Seq<AttachmentText>,
)
    requires
        !has_line_break(to),
        !has_line_break(subject),
        !has_line_break(boundary),
        forall|i: int| 0 <= i < attachments.len() ==> attachment_fields_clean(#[trigger] attachments[i]),
    ensures
        crlf_line_ends(email_text(to, subject, body, boundary, attachments)),
{
    let multipart = attachments.len() > 0;
    let lines = email_headers(to, subject, boundary, multipart);
    lemma_header_lines_clean(to, subject, boundary, multipart);
    lemma_crlf_join_line_ends(lines);
    lemma_crlf_line_ends();
    lemma_normalized_line_ends(body);
    let text = normalize_line_ends(body);
    let h = crlf_join(lines);
    lemma_line_ends_concat(h, crlf());
    lemma_line_ends_concat(h + crlf(), crlf());
    if multipart {
        lemma_multipart_line_ends(text, boundary, attachments);
        lemma_literal_line_ends();
        lemma_no_line_break_line_ends(boundary);
        let m = multipart_parts(text, boundary, attachments);
        lemma_line_ends_concat(m, "--"@);
        lemma_line_ends_concat(m + "--"@, boundary);
        lemma_line_ends_concat(m + "--"@ + boundary, "--"@);
        lemma_line_ends_concat(h + crlf() + crlf(), email_body(body, boundary, attachments));
    } else {
        lemma_line_ends_concat(h + crlf() + crlf(), text);
    }
}

/// A piece of a message template: fixed text, or (`None`) the place where
/// the boundary goes.
pub open spec fn piece_text(piece: Option<Seq<char>>, boundary: Seq<char>) -> Seq<char> {
    match piece {
        Some(t) => t,
        None => boundary,
    }
}

/// A template with the boundary put in each of its places.
pub open spec fn fill_template(pieces: Seq<Option<Seq<char>>>, boundary: Seq<char>) -> Seq<char>
    decreases pieces.len(),
{
    if pieces.len() == 0 {
        Seq::empty()
    } else {
        fill_template(pieces.drop_last(), boundary) + piece_text(pieces.last(), boundary)
    }
}

/// A delimiter line and what follows it up to the next delimiter.
pub open spec fn delimited(after: Seq<char>) -> Seq<Option<Seq<char>>> {
    seq![Some("--"@), None, Some(after)]
}

/// What follows the delimiter of the text part.
pub open spec fn text_part_after(text: Seq<char>) -> Seq<char> {
    crlf() + "Content-Type: text/plain; charset=UTF-8"@ + crlf() + crlf() + text + crlf() + crlf()
}

/// What follows the delimiter of an attachment's part.
pub open spec fn attachment_part_after(a: AttachmentText) -> Seq<char> {
    crlf() + "Content-Type: "@ + a.mime_type + crlf()
        + "Content-Disposition: attachment; filename=\""@ + a.filename + "\""@ + crlf()
        + "Content-Transfer-Encoding: base64"@ + crlf() + crlf() + a.encoded + crlf() + crlf()
}

/// The template of the parts of a multipart body.
pub open spec fn multipart_template(text: Seq<char>, attachments: Seq<AttachmentText>) -> Seq<
    Option<Seq<char>>,
>
    decreases attachments.len(),
{
    if attachments.len() == 0 {
        delimited(text_part_after(text))
    } else {
        multipart_template(text, attachments.drop_last()) + delimited(
            attachment_part_after(attachments.last()),
        )
    }
}

/// The header lines of a multipart message up to the boundary parameter.
pub open spec fn headers_before_boundary(to: Seq<char>, subject: Seq<char>) -> Seq<char> {
    "From: me"@ + crlf() + ("To: "@ + to) + crlf() + ("Subject: "@ + subject) + crlf()
        + "MIME-Version: 1.0"@ + crlf() + "Content-Type: multipart/mixed; boundary=\""@
}

/// The message as a template with a place for the boundary wherever it
/// occurs: the same for every boundary.
pub open spec fn email_template(
    to: Seq<char>,
    subject: Seq<char>,
    body: Seq<char>,
    attachments: Seq<AttachmentText>,
) -> Seq<Option<Seq<char>>> {
    let text = normalize_line_ends(body);
    if attachments.len() == 0 {
        seq![Some(header_block(to, subject, Seq::empty(), false) + crlf() + crlf() + text)]
    } else {
        seq![Some(headers_before_boundary(to, subject)), None, Some("\""@ + crlf() + crlf())]
            + multipart_template(text, attachments) + seq![Some("--"@), None, Some("--"@)]
    }
}

proof fn lemma_fill_append(p: Seq<Option<Seq<char>>>, q: Seq<Option<Seq<char>>>, b: Seq<char>)
    ensures
        fill_template(p + q, b) == fill_template(p, b) + fill_template(q, b),
    decreases q.len(),
{
    if q.len() == 0 {
        assert(p + q =~= p);
    } else {
        lemma_fill_append(p, q.drop_last(), b);
        assert((p + q).drop_last() =~= p + q.drop_last());
        assert((p + q).last() == q.last());
    }
}

proof fn lemma_fill_three(x: Seq<char>, y: Seq<char>, b: Seq<char>)
    ensures
        fill_template(seq![Some(x), None, Some(y)], b) == x + b + y,
{
    let t = seq![Some(x), None, Some(y)];
    reveal_with_fuel(fill_template, 4);
    assert(t.drop_last().drop_last().drop_last() =~= Seq::<Option<Seq<char>>>::empty());
    assert(t.drop_last().drop_last() =~= seq![Some(x)]);
    assert(t.drop_last() =~= seq![Some(x), None]);
    assert(Seq::<char>::empty() + x =~= x);
}

proof fn lemma_multipart_template(
    text: Seq<char>,
    boundary: Seq<char>,
    attachments: Seq<AttachmentText>,
)
    ensures
        multipart_parts(text, boundary, attachments) == fill_template(
            multipart_template(text, attachments),
            boundary,
        ),
    decreases attachments.len(),
{
    if attachments.len() == 0 {
        lemma_fill_three("--"@, text_part_after(text), boundary);
        assert(text_part(text, boundary) =~= "--"@ + boundary + text_part_after(text));
    } else {
        let rest = attachments.drop_last();
        let a = attachments.last();
        lemma_multipart_template(text, boundary, rest);
        lemma_fill_append(multipart_template(text, rest), delimited(attachment_part_after(a)), boundary);
        lemma_fill_three("--"@, attachment_part_after(a), boundary);
        assert(attachment_part(boundary, a) =~= "--"@ + boundary + attachment_part_after(a));
    }
}

/// Two builds of a message differ only in the boundary: the message is one
/// template, fixed by the recipient, the subject, the body and the
/// attachments, with the boundary put in each of its places. Without
/// attachments the template has no such place.
pub proof fn lemma_message_is_template_with_boundary(
    to: Seq<char>,
    subject: Seq<char>,
    body: Seq<char>,
    attachments: Seq<AttachmentText>,
    boundary: Seq<char>,
)
    ensures
        email_text(to, subject, body, boundary, attachments) == fill_template(
            email_template(to, subject, body, attachments),
            boundary,
        ),
        attachments.len() == 0 ==> forall|i: int|
            0 <= i < email_template(to, subject, body, attachments).len() ==> (
            #[trigger] email_template(to, subject, body, attachments)[i]) is Some,
{
    let text = normalize_line_ends(body);
    let multipart = attachments.len() > 0;
    lemma_crlf_join_five(email_headers(to, subject, boundary, multipart));
    if !multipart {
        lemma_crlf_join_five(email_headers(to, subject, Seq::empty(), false));
        let t = email_template(to, subject, body, attachments);
        reveal_with_fuel(fill_template, 2);
        assert(t.drop_last() =~= Seq::<Option<Seq<char>>>::empty());
        assert(header_block(to, subject, boundary, false) == header_block(
            to,
            subject,
            Seq::empty(),
            false,
        ));
        assert(Seq::<char>::empty() + (header_block(to, subject, Seq::empty(), false) + crlf()
            + crlf() + text) =~= email_text(to, subject, body, boundary, attachments));
    } else {
        let head = seq![Some(headers_before_boundary(to, subject)), None, Some("\""@ + crlf() + crlf())];
        let tail = seq![Some("--"@), None, Some("--"@)];
        let m = multipart_template(text, attachments);
        lemma_fill_three(headers_before_boundary(to, subject), "\""@ + crlf() + crlf(), boundary);
        lemma_fill_three("--"@, "--"@, boundary);
        lemma_multipart_template(text, boundary, attachments);
        lemma_fill_append(head, m, boundary);
        lemma_fill_append(head + m, tail, boundary);
        assert(header_block(to, subject, boundary, true) + crlf() + crlf() =~= headers_before_boundary(
            to,
            subject,
        ) + boundary + ("\""@ + crlf() + crlf()));
        assert(email_text(to, subject, body, boundary, attachments) =~= fill_template(head, boundary)
            + fill_template(m, boundary) + fill_template(tail, boundary));
    }
}

/// A text with its CR and LF characters taken out.
pub open spec fn drop_line_breaks(s: Seq<char>) -> Seq<char>
    decreases s.len(),
{
    if s.len() == 0 {
        Seq::empty()
    } else if s[0] == '\r' || s[0] == '\n' {
        drop_line_breaks(s.skip(1))
    } else {
        seq![s[0]] + drop_line_breaks(s.skip(1))
    }
}

proof fn lemma_drop_line_breaks_concat(a: Seq<char>, b: Seq<char>)
    ensures
        drop_line_breaks(a + b) == drop_line_breaks(a) + drop_line_breaks(b),
    decreases a.len(),
{
    if a.len() == 0 {
        assert(a + b =~= b);
    } else {
        lemma_drop_line_breaks_concat(a.skip(1), b);
        assert((a + b).skip(1) =~= a.skip(1) + b);
        assert((a + b)[0] == a[0]);
    }
}

proof fn lemma_drop_line_breaks_crlf()
    ensures
        drop_line_breaks(crlf()) == Seq::<char>::empty(),
{
    reveal_with_fuel(drop_line_breaks, 3);
    assert(crlf().skip(1) =~= seq!['\n']);
    assert(crlf().skip(1).skip(1) =~= Seq::<char>::empty());
}

/// Making line ends CRLF changes nothing but line ends: with CR and LF
/// taken out, the text is the same before and after.
pub proof fn lemma_normalize_keeps_other_characters(s: Seq<char>)
    ensures
        drop_line_breaks(normalize_line_ends(s)) == drop_line_breaks(s),
    decreases s.len(),
{
    if s.len() > 0 {
        lemma_drop_line_breaks_crlf();
        if s.len() >= 2 && s[0] == '\r' && s[1] == '\n' {
            lemma_normalize_keeps_other_characters(s.skip(2));
            lemma_drop_line_breaks_concat(crlf(), normalize_line_ends(s.skip(2)));
            assert(crlf() + Seq::<char>::empty() =~= crlf());
            assert(s.skip(1).skip(1) =~= s.skip(2));
            assert(s.skip(1)[0] == '\n');
            assert(drop_line_breaks(s.skip(1)) == drop_line_breaks(s.skip(1).skip(1)));
            assert(Seq::<char>::empty() + drop_line_breaks(normalize_line_ends(s.skip(2)))
                =~= drop_line_breaks(normalize_line_ends(s.skip(2))));
        } else if is_line_break(s[0]) {
            lemma_normalize_keeps_other_characters(s.skip(1));
            lemma_drop_line_breaks_concat(crlf(), normalize_line_ends(s.skip(1)));
            assert(Seq::<char>::empty() + drop_line_breaks(normalize_line_ends(s.skip(1)))
                =~= drop_line_breaks(normalize_line_ends(s.skip(1))));
        } else {
            let c = seq![s[0]];
            lemma_normalize_keeps_other_characters(s.skip(1));
            lemma_drop_line_breaks_concat(c, normalize_line_ends(s.skip(1)));
            reveal_with_fuel(drop_line_breaks, 2);
            assert(c.skip(1) =~= Seq::<char>::empty());
        }
    }
}

/// A text whose line ends are all CRLF already is left as it is.
pub proof fn lemma_normalize_keeps_crlf_text(s: Seq<char>)
    requires
        crlf_line_ends(s),
    ensures
        normalize_line_ends(s) == s,
    decreases s.len(),
{
    if s.len() > 0 {
        assert(line_end_ok_at(s, 0));
        if s[0] == '\r' {
            let r = s.skip(2);
            assert(s[1] == '\n');
            assert forall|j: int| 0 <= j < r.len() implies #[trigger] line_end_ok_at(r, j) by {
                assert(line_end_ok_at(s, j + 2));
                assert(r[j] == s[j + 2]);
                if j + 1 < r.len() {
                    assert(r[j + 1] == s[j + 3]);
                }
                if j > 0 {
                    assert(r[j - 1] == s[j + 1]);
                }
            }
            lemma_normalize_keeps_crlf_text(r);
            assert(crlf() + r =~= s);
        } else {
            let r = s.skip(1);
            if s.len() > 1 {
                assert(line_end_ok_at(s, 1));
            }
            assert forall|j: int| 0 <= j < r.len() implies #[trigger] line_end_ok_at(r, j) by {
                assert(line_end_ok_at(s, j + 1));
                assert(r[j] == s[j + 1]);
                if j + 1 < r.len() {
                    assert(r[j + 1] == s[j + 2]);
                }
                if j > 0 {
                    assert(r[j - 1] == s[j]);
                }
            }
            lemma_normalize_keeps_crlf_text(r);
            assert(seq![s[0]] + r =~= s);
        }
    }
}

} // verus!
