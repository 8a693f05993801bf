# gmail-sender

A command-line tool that sends email through the Gmail API, built around a
library verified with Verus.

- `src/` is the verified library:
  - `paths.rs`: the XDG configuration and data directories, file paths
    kept inside them, Unix path joining, and where `config install` puts
    the executable.
  - `header.rs`: the check that keeps CR and LF out of header fields.
  - `boundary.rs`: MIME boundaries made from sixteen random bytes, with the
    proofs that a boundary holds no line break and that different bytes give
    different boundaries.
  - `email.rs`: the layout of the RFC 822 message, plain or multipart with
    base64 attachments, with the body's line ends made CRLF; its verbose
    rendering; and the proofs that validated fields cannot add header
    lines, that the message has only CRLF line ends, that each
    attachment's payload decodes back to the file's bytes, and that two
    builds differ only in the boundary.
  - `permissions.rs`: permission checks, octal modes and the warning text.
  - `config_check.rs`: the decisions of `config init` and `config check`,
    including the reading of the keys of the client secret JSON.
  - `send.rs`: the request body, the Authorization header, and the verdict
    on the API's answer.
  - `transfer_encoding.rs`: standard base64 (RFC 4648) and its decoding,
    with the proof that decoding gives back what was encoded.
- `app/` is the program around it: command-line parsing, prompts, the
  environment, the file system, OAuth2 and HTTP.
- `tests/` runs the library on concrete values.
