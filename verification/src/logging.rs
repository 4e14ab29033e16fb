//! What the log file shows of a record's source and level, and the colors of
//! the developer console.

use vstd::prelude::*;
use vstd::string::StringSliceAdditionalSpecFns;
use vstd::utf8::*;

verus! {

broadcast use encode_utf8_valid_utf8;

/// Severity of a log record.
#[derive(Copy, Clone, Debug, PartialEq, Eq, Structural)]
pub enum LogLevel {
    Error,
    Warn,
    Info,
    Debug,
    Trace,
}

/// Colors of the lines of the developer console.
#[derive(Copy, Clone, Debug, PartialEq, Eq, Structural)]
pub enum PrintColor {
    Gray,
    Cyan,
    Yellow,
    Red,
}

/// The level's name, padded to five characters.
pub open spec fn level_label(level: LogLevel) -> Seq<char> {
    match level {
        LogLevel::Error => "ERROR"@,
        LogLevel::Warn => "WARN "@,
        LogLevel::Info => "INFO "@,
        LogLevel::Debug => "DEBUG"@,
        LogLevel::Trace => "TRACE"@,
    }
}

/// The level's name, padded to five characters.
pub fn padded_level(level: LogLevel) -> (label: &'static str)
    ensures
        label@ == level_label(level),
{
    match level {
        LogLevel::Error => "ERROR",
        LogLevel::Warn => "WARN ",
        LogLevel::Info => "INFO ",
        LogLevel::Debug => "DEBUG",
        LogLevel::Trace => "TRACE",
    }
}

/// Whether the bytes `b[i..i + 4]` read `src/`.
pub open spec fn src_marker_at(b: Seq<u8>, i: int) -> bool {
    &&& 0 <= i
    &&& i + 4 <= b.len()
    &&& b[i] == 0x73u8
    &&& b[i + 1] == 0x72u8
    &&& b[i + 2] == 0x63u8
    &&& b[i + 3] == 0x2fu8
}

/// Where the first `src/` starts in `b`, from byte `i` on.
pub open spec fn first_src_marker(b: Seq<u8>, i: int) -> Option<int>
    decreases b.len() - i,
{
    if i < 0 || i + 4 > b.len() {
        None
    } else if src_marker_at(b, i) {
        Some(i)
    } else {
        first_src_marker(b, i + 1)
    }
}

/// A byte below 0x80 that starts a character ends it too.
proof fn lemma_boundary_after_ascii(bytes: Seq<u8>, j: int)
    requires
        valid_utf8(bytes),
        0 <= j < bytes.len(),
        is_char_boundary(bytes, j),
        bytes[j] < 0x80,
    ensures
        is_char_boundary(bytes, j + 1),
    decreases bytes.len(),
{
    reveal_with_fuel(is_char_boundary, 2);
    if j == 0 {
        assert(length_of_first_scalar(bytes) == 1);
    } else {
        let l = length_of_first_scalar(bytes);
        let rest = pop_first_scalar(bytes);
        assert(is_char_boundary(rest, j - l));
        assert(j - l >= 0);
        assert(rest[j - l] == bytes[j]);
        lemma_boundary_after_ascii(rest, j - l);
    }
}

/// The part of a source file's path after its first `src/`; `<unknown>`
/// where there is no path or no `src/` in it.
pub fn source_path(file: Option<&str>) -> (path: &str)
    ensures
        match file {
            None => path@ == "<unknown>"@,
            Some(p) => match first_src_marker(p.spec_bytes(), 0) {
                None => path@ == "<unknown>"@,
                Some(i) => path.spec_bytes() == p.spec_bytes().subrange(i + 4, p.spec_bytes().len() as int),
            },
        },
{
    match file {
        Some(p) => path_after_src(p),
        None => "<unknown>",
    }
}

/// The part of `p` after its first `src/`; `<unknown>` where there is none.
fn path_after_src(p: &str) -> (path: &str)
    ensures
        match first_src_marker(p.spec_bytes(), 0) {
            None => path@ == "<unknown>"@,
            Some(i) => path.spec_bytes() == p.spec_bytes().subrange(i + 4, p.spec_bytes().len() as int),
        },
{
    let bytes = p.as_bytes();
    let len = bytes.len();
    let mut i: usize = 0;
    while i < len && len - i >= 4
        invariant
            i <= len,
            bytes@ == p.spec_bytes(),
            len == bytes@.len(),
            first_src_marker(bytes@, 0) == first_src_marker(bytes@, i as int),
        decreases len - i,
    {
        if bytes[i] == 0x73u8 && bytes[i + 1] == 0x72u8 && bytes[i + 2] == 0x63u8 && bytes[i + 3] == 0x2fu8 {
            proof {
                let b = p.spec_bytes();
                is_char_boundary_iff_not_is_continuation_byte(b, i + 3);
                lemma_boundary_after_ascii(b, i + 3);
            }
            let (_, rest) = p.split_at(i + 4);
            assert(first_src_marker(bytes@, i as int) == Some(i as int));
            return rest;
        }
        i = i + 1;
    }
    "<unknown>"
}

} // verus!
