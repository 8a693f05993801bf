use vstd::prelude::*;

verus! {

/// The mode given to this program's directories: owner only.
pub const SECURE_DIR_MODE: u32 = 0o700;

/// The mode given to this program's files: owner read and write only.
pub const SECURE_FILE_MODE: u32 = 0o600;

/// The mode given to an installed copy of the executable.
pub const INSTALLED_EXE_MODE: u32 = 0o755;

/// The permission bits of a raw Unix mode (the file type bits dropped).
pub open spec fn permission_bits(raw_mode: u32) -> u32 {
    raw_mode & 0o777u32
}

/// Compares the permission bits of a file's raw Unix mode with the
/// expected mode. Gives whether they match, and the permission bits.
pub fn check_permissions(raw_mode: u32, expected_mode: u32) -> (result: (bool, u32))
    ensures
        result.1 == permission_bits(raw_mode),
        result.1 == raw_mode & 0o777u32,
        result.0 == (result.1 == expected_mode),
        result.1 <= 0o777,
{
    let mode = raw_mode & 0o777;
    assert(raw_mode & 0o777u32 <= 0o777u32) by (bit_vector);
    (mode == expected_mode, mode)
}

/// The character of an octal digit.
pub open spec fn octal_digit(d: nat) -> char {
    if d == 0 {
        '0'
    } else if d == 1 {
        '1'
    } else if d == 2 {
        '2'
    } else if d == 3 {
        '3'
    } else if d == 4 {
        '4'
    } else if d == 5 {
        '5'
    } else if d == 6 {
        '6'
    } else {
        '7'
    }
}

/// The value of an octal digit character.
pub open spec fn octal_digit_value(c: char) -> nat {
    if c == '1' {
        1
    } else if c == '2' {
        2
    } else if c == '3' {
        3
    } else if c == '4' {
        4
    } else if c == '5' {
        5
    } else if c == '6' {
        6
    } else if c == '7' {
        7
    } else {
        0
    }
}

/// The octal numeral of `n`, without leading zeros ("0" for zero).
pub open spec fn octal_digits(n: nat) -> Seq<char>
    decreases n,
{
    if n < 8 {
        seq![octal_digit(n)]
    } else {
        octal_digits(n / 8).push(octal_digit(n % 8))
    }
}

/// The number that an octal numeral denotes.
pub open spec fn octal_value(s: Seq<char>) -> nat
    decreases s.len(),
{
    if s.len() == 0 {
        0
    } else {
        octal_value(s.drop_last()) * 8 + octal_digit_value(s.last())
    }
}

/// An octal numeral reads back as the number it was written for.
pub proof fn lemma_octal_round_trip(n: nat)
    ensures
        octal_value(octal_digits(n)) == n,
    decreases n,
{
    let d = (n % 8) as nat;
    assert(octal_digit_value(octal_digit(d)) == d);
    if n >= 8 {
        lemma_octal_round_trip(n / 8);
        assert(octal_digits(n).drop_last() == octal_digits(n / 8));
        assert(octal_digits(n).last() == octal_digit(d));
        assert(n == (n / 8) * 8 + d);
    } else {
        assert(octal_digits(n).drop_last() =~= Seq::<char>::empty());
        assert(octal_value(Seq::<char>::empty()) == 0);
        assert(octal_digits(n).last() == octal_digit(d));
    }
}

fn octal_digit_str(d: u32) -> (s: &'static str)
    requires
        d < 8,
    ensures
        s@ == seq![octal_digit(d as nat)],
{
    proof {
        reveal_strlit("0");
        reveal_strlit("1");
        reveal_strlit("2");
        reveal_strlit("3");
        reveal_strlit("4");
        reveal_strlit("5");
        reveal_strlit("6");
        reveal_strlit("7");
    }
    if d == 0 {
        "0"
    } else if d == 1 {
        "1"
    } else if d == 2 {
        "2"
    } else if d == 3 {
        "3"
    } else if d == 4 {
        "4"
    } else if d == 5 {
        "5"
    } else if d == 6 {
        "6"
    } else {
        "7"
    }
}

/// Writes `n` in octal, as the `{:o}` format does.
pub fn format_octal(n: u32) -> (s: String)
    ensures
        s@ == octal_digits(n as nat),
    decreases n,
{
    let mut s = if n >= 8 {
        format_octal(n / 8)
    } else {
        String::new()
    };
    s.append(octal_digit_str(n % 8));
    s
}

/// The first line of the warning about a file or directory whose
/// permissions are wider than they should be.
pub open spec fn insecure_warning_line(description: Seq<char>, current: u32, expected: u32) -> Seq<
    char,
> {
    "\u{26a0} Warning: "@ + description + " has insecure permissions ("@ + octal_digits(
        current as nat,
    ) + ", should be "@ + octal_digits(expected as nat) + ")"@
}

/// The second line of that warning: the command that fixes it.
pub open spec fn insecure_fix_line(expected: u32, path_text: Seq<char>) -> Seq<char> {
    "  Fix with: chmod "@ + octal_digits(expected as nat) + " "@ + path_text
}

/// The warning to show about a file or directory, given its raw Unix mode
/// where it could be read: no lines where the mode is unknown or its
/// permission bits are the expected ones, else the two lines of the
/// warning. `path_text` is the path as it is to be shown.
pub fn insecure_permissions_warning(
    raw_mode: Option<u32>,
    expected_mode: u32,
    description: &str,
    path_text: &str,
) -> (lines: Vec<String>)
    ensures
        match raw_mode {
            Some(m) if permission_bits(m) != expected_mode => {
                &&& lines@.len() == 2
                &&& lines@[0]@ == insecure_warning_line(
                    description@,
                    permission_bits(m),
                    expected_mode,
                )
                &&& lines@[1]@ == insecure_fix_line(expected_mode, path_text@)
            },
            _ => lines@.len() == 0,
        },
{
    let mut lines: Vec<String> = Vec::new();
    if let Some(m) = raw_mode {
        let (is_secure, current) = check_permissions(m, expected_mode);
        if !is_secure {
            let expected_text = format_octal(expected_mode);
            let mut first = String::from_str("\u{26a0} Warning: ");
            first.append(description);
            first.append(" has insecure permissions (");
            first.append(format_octal(current).as_str());
            first.append(", should be ");
            first.append(expected_text.as_str());
            first.append(")");
            let mut second = String::from_str("  Fix with: chmod ");
            second.append(expected_text.as_str());
            second.append(" ");
            second.append(path_text);
            lines.push(first);
            lines.push(second);
        }
    }
    lines
}

} // verus!
