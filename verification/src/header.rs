use vstd::prelude::*;

verus! {

/// A carriage return or a line feed: the characters that end a header line.
pub open spec fn is_line_break(c: char) -> bool {
    c == '\r' || c == '\n'
}

/// `s` holds a carriage return or a line feed somewhere.
pub open spec fn has_line_break(s: Seq<char>) -> bool {
    exists|i: int| 0 <= i < s.len() && is_line_break(#[trigger] s[i])
}

/// A header field refused because it would end its header line early.
pub struct HeaderFieldError {
    /// The name under which the caller knows the field, such as "subject".
    pub field_name: String,
}

impl HeaderFieldError {
    /// The text shown to the user for this error.
    pub fn message(&self) -> (text: String)
        ensures
            text@ == "Invalid "@ + self.field_name@
                + ": contains newline characters (potential header injection)"@,
    {
        let mut text = String::from_str("Invalid ");
        text.append(self.field_name.as_str());
        text.append(": contains newline characters (potential header injection)");
        text
    }
}

/// Checks a value that is to stand in an email header. A value with a
/// carriage return or a line feed could start headers of its own, so it
/// is refused.
pub fn validate_header_field(value: &str, field_name: &str) -> (result: Result<(), HeaderFieldError>)
    ensures
        result is Ok <==> !has_line_break(value@),
        result is Ok <==> forall|i: int|
            0 <= i < value@.len() ==> value@[i] != '\r' && value@[i] != '\n',
        result matches Err(e) ==> e.field_name@ == field_name@,
{
    broadcast use vstd::string::group_string_axioms;

    for c in it: value.chars()
        invariant
            it.seq() == value@,
            forall|j: int| 0 <= j < it.index() ==> !is_line_break(#[trigger] value@[j]),
    {
        if c == '\r' || c == '\n' {
            return Err(HeaderFieldError { field_name: String::from_str(field_name) });
        }
    }
    Ok(())
}

} // verus!
