//! Error type shared by the archive reader and writer.

use vstd::prelude::*;
use vstd::string::StringExecFns;

verus! {

/// The standard library's I/O error, carried through unchanged.
#[verifier::external_type_specification]
#[verifier::external_body]
pub struct ExIoError(std::io::Error);

/// Everything that can go wrong while reading an archive.
#[derive(Debug)]
pub enum ArcError {
    Io(std::io::Error),
    /// The footer descriptor signature was not found in the last 4 KiB
    /// of the file. Either the file is not a FreeArc archive or it is
    /// truncated.
    NoFooterSignature,
    /// We expected more bytes than the file/buffer contained.
    Truncated,
    /// A control block claimed an unrecognised type byte.
    UnknownBlockType(u8),
    /// A control block descriptor or its body failed its CRC.
    CrcMismatch { what: &'static str, expected: u32, actual: u32 },
    /// No decoder is available for the compressor a block uses.
    UnsupportedCompressor(String),
}

/// The mathematical value of an [`ArcError`]: strings become character
/// sequences, the I/O error becomes an opaque marker.
pub enum ArcErrorView {
    Io,
    NoFooterSignature,
    Truncated,
    UnknownBlockType(u8),
    CrcMismatch { what: Seq<char>, expected: u32, actual: u32 },
    UnsupportedCompressor(Seq<char>),
}

impl View for ArcError {
    type V = ArcErrorView;

    open spec fn view(&self) -> ArcErrorView {
        match self {
            ArcError::Io(_) => ArcErrorView::Io,
            ArcError::NoFooterSignature => ArcErrorView::NoFooterSignature,
            ArcError::Truncated => ArcErrorView::Truncated,
            ArcError::UnknownBlockType(b) => ArcErrorView::UnknownBlockType(*b),
            ArcError::CrcMismatch { what, expected, actual } => ArcErrorView::CrcMismatch {
                what: what@,
                expected: *expected,
                actual: *actual,
            },
            ArcError::UnsupportedCompressor(s) => ArcErrorView::UnsupportedCompressor(s@),
        }
    }
}

/// `std::io::Error::new(ErrorKind::UnexpectedEof, "failed to fill whole
/// buffer")`: the error `Read::read_exact` reports when its input ends
/// early, as an I/O error.
#[verifier::external_body]
pub(crate) fn unexpected_eof() -> (e: ArcError)
    ensures
        e@ == ArcErrorView::Io,
{
    ArcError::Io(std::io::Error::new(std::io::ErrorKind::UnexpectedEof, "failed to fill whole buffer"))
}

/// A hexadecimal digit, lower case.
pub open spec fn hex_digit(d: nat) -> char {
    if d < 10 {
        (('0' as u32) + d) as char
    } else {
        (('a' as u32) + (d - 10)) as char
    }
}

/// The `w` low-order hexadecimal digits of `v`, most significant first.
pub open spec fn hex_fixed(v: nat, w: nat) -> Seq<char>
    decreases w,
{
    if w == 0 {
        Seq::empty()
    } else {
        hex_fixed(v / 16, (w - 1) as nat).push(hex_digit(v % 16))
    }
}

/// `0x` and the `w` low-order hexadecimal digits of `v`.
pub fn hex_text(v: u64, w: usize) -> (s: String)
    ensures
        s@ == seq!['0', 'x'] + hex_fixed(v as nat, w as nat),
{
    let mut digits: Vec<char> = Vec::new();
    let mut rest = v;
    let mut i: usize = 0;
    while i < w
        invariant
            i <= w,
            hex_fixed(v as nat, w as nat) == hex_fixed(rest as nat, (w - i) as nat) + digits@,
        decreases w - i,
    {
        let d = (rest % 16) as u32;
        let c = if d < 10 {
            char_from(('0' as u32) + d)
        } else {
            char_from(('a' as u32) + (d - 10))
        };
        let ghost before = digits@;
        digits.insert(0, c);
        proof {
            assert(hex_fixed(rest as nat, (w - i) as nat) == hex_fixed(
                (rest / 16) as nat,
                (w - i - 1) as nat,
            ).push(hex_digit((rest % 16) as nat)));
            assert(digits@ =~= seq![c] + before);
            assert(hex_fixed((rest / 16) as nat, (w - i - 1) as nat).push(c) + before
                =~= hex_fixed((rest / 16) as nat, (w - i - 1) as nat) + digits@);
        }
        rest = rest / 16;
        i = i + 1;
    }
    assert(hex_fixed(rest as nat, 0) =~= Seq::<char>::empty());
    assert(digits@ =~= hex_fixed(v as nat, w as nat));
    let mut s = String::from_str("0x");
    proof {
        reveal_strlit("0x");
    }
    let tail = crate::bytes::string_from_chars(digits.as_slice());
    s.append(tail.as_str());
    s
}

/// The character with code `u`, an ASCII digit or lower-case letter.
/// The decimal digits of `v`, most significant first ("0" for zero).
pub open spec fn dec_digits(v: nat) -> Seq<char>
    decreases v,
{
    if v < 10 {
        seq![hex_digit(v)]
    } else {
        dec_digits(v / 10).push(hex_digit(v % 10))
    }
}

/// `v` in decimal, as `{}` formats an integer.
pub open spec fn int_text(v: int) -> Seq<char> {
    if v < 0 {
        seq!['-'] + dec_digits((-v) as nat)
    } else {
        dec_digits(v as nat)
    }
}

fn push_dec_digits(v: u64, out: &mut Vec<char>)
    ensures
        final(out)@ == old(out)@ + dec_digits(v as nat),
    decreases v,
{
    if v >= 10 {
        push_dec_digits(v / 10, out);
    }
    let c = char_from(0x30 + (v % 10) as u32);
    let ghost mid = out@;
    out.push(c);
    proof {
        if v >= 10 {
            assert(out@ =~= old(out)@ + dec_digits((v / 10) as nat).push(hex_digit((v % 10) as nat)));
        } else {
            assert(out@ =~= old(out)@ + seq![hex_digit(v as nat)]);
        }
    }
}

/// `v` in decimal, as `{}` formats it.
pub fn dec_text(v: i64) -> (s: String)
    ensures
        s@ == int_text(v as int),
{
    let mut out: Vec<char> = Vec::new();
    if v < 0 {
        out.push('-');
        let m: u64 = if v == i64::MIN {
            9223372036854775808u64
        } else {
            (-v) as u64
        };
        push_dec_digits(m, &mut out);
    } else {
        push_dec_digits(v as u64, &mut out);
    }
    proof {
        if v >= 0 {
            assert(out@ =~= dec_digits(v as nat));
        }
    }
    crate::bytes::string_from_chars(out.as_slice())
}

pub(crate) fn char_from(u: u32) -> (c: char)
    requires
        0x30 <= u <= 0x7a,
    ensures
        c == u as char,
{
    let b = u as u8;
    b as char
}

/// What `format!("{:?}", s)` makes of a string: the text in double
/// quotes, with quotes, backslashes and control characters escaped.
pub uninterp spec fn debug_text(s: Seq<char>) -> Seq<char>;

/// `format!("{:?}", s)`; trusted to give `debug_text(s)`.
#[verifier::external_body]
pub(crate) fn debug_quoted(s: &str) -> (r: String)
    ensures
        r@ == debug_text(s@),
{
    format!("{:?}", s)
}

/// `std::io::Error`'s `Display` text. Nothing is stated of it: the text
/// comes from the operating system.
#[verifier::external_body]
fn io_error_text(e: &std::io::Error) -> String {
    e.to_string()
}

/// The text of an error, as the reader shows it to users.
pub open spec fn error_text(e: ArcErrorView) -> Option<Seq<char>> {
    match e {
        ArcErrorView::Io => None,
        ArcErrorView::NoFooterSignature => Some(
            "no FreeArc footer signature in last 4 KiB (not a FreeArc archive?)"@,
        ),
        ArcErrorView::Truncated => Some("archive truncated (read past end)"@),
        ArcErrorView::UnknownBlockType(b) => Some(
            "unknown block type byte "@ + seq!['0', 'x'] + hex_fixed(b as nat, 2),
        ),
        ArcErrorView::CrcMismatch { what, expected, actual } => Some(
            "CRC mismatch on "@ + what + ": expected "@ + seq!['0', 'x'] + hex_fixed(
                expected as nat,
                8,
            ) + ", got "@ + seq!['0', 'x'] + hex_fixed(actual as nat, 8),
        ),
        ArcErrorView::UnsupportedCompressor(s) => Some(
            "unsupported compressor "@ + debug_text(s) + " (no native decoder wired in yet)"@,
        ),
    }
}

impl ArcError {
    /// The error's text, as shown to users. For an I/O error it is `io: `
    /// followed by the system's message.
    pub fn message(&self) -> (s: String)
        ensures
            error_text(self@) matches Some(t) ==> s@ == t,
    {
        match self {
            ArcError::Io(e) => {
                let mut s = String::from_str("io: ");
                let t = io_error_text(e);
                s.append(t.as_str());
                s
            },
            ArcError::NoFooterSignature => String::from_str(
                "no FreeArc footer signature in last 4 KiB (not a FreeArc archive?)",
            ),
            ArcError::Truncated => String::from_str("archive truncated (read past end)"),
            ArcError::UnknownBlockType(b) => {
                let mut s = String::from_str("unknown block type byte ");
                let h = hex_text(*b as u64, 2);
                s.append(h.as_str());
                s
            },
            ArcError::CrcMismatch { what, expected, actual } => {
                let mut s = String::from_str("CRC mismatch on ");
                s.append(what);
                s.append(": expected ");
                let h1 = hex_text(*expected as u64, 8);
                s.append(h1.as_str());
                s.append(", got ");
                let h2 = hex_text(*actual as u64, 8);
                s.append(h2.as_str());
                s
            },
            ArcError::UnsupportedCompressor(c) => {
                let mut s = String::from_str("unsupported compressor ");
                let q = debug_quoted(c.as_str());
                s.append(q.as_str());
                s.append(" (no native decoder wired in yet)");
                s
            },
        }
    }
}

} // verus!
