//! Call-site signatures: the resolved stack frames that lie in instrumented
//! source files, written one `path:line` per line.

use vstd::prelude::*;
use vstd::string::*;
use vstd::utf8::encode_utf8;

verus! {

/// Path fragment that marks a frame as instrumented code.
pub const TRACED_PATH_TAG: &'static str = "mace";

/// Paths of this many bytes or fewer are taken as unresolved and skipped.
pub const MIN_PATH_LEN: usize = 10;

/// One stack frame as the symbolizer resolved it; either part may be missing.
#[derive(Debug)]
pub struct Frame {
    pub path: Option<String>,
    pub line: Option<u32>,
}

/// `needle` occurs in `hay` at offset `i`.
pub open spec fn occurs_at(hay: Seq<u8>, needle: Seq<u8>, i: int) -> bool {
    0 <= i && i + needle.len() <= hay.len() && hay.subrange(i, i + needle.len()) == needle
}

/// `needle` occurs somewhere in `hay`.
pub open spec fn contains_bytes(hay: Seq<u8>, needle: Seq<u8>) -> bool {
    exists|i: int| occurs_at(hay, needle, i)
}

/// The character of a decimal digit.
pub open spec fn digit_char(d: nat) -> char {
    (d + 48) as u32 as char
}

/// Decimal notation of `n`, without leading zeros.
pub open spec fn decimal(n: nat) -> Seq<char>
    decreases n,
{
    if n < 10 {
        seq![digit_char(n)]
    } else {
        decimal(n / 10).push(digit_char(n % 10))
    }
}

/// A frame counts when both its path and line resolved, its path is longer
/// than `min_len` bytes, and the path contains `tag`.
pub open spec fn frame_selected(f: Frame, tag: Seq<u8>, min_len: nat) -> bool {
    &&& f.path is Some
    &&& f.line is Some
    &&& encode_utf8(f.path->Some_0@).len() > min_len
    &&& contains_bytes(encode_utf8(f.path->Some_0@), tag)
}

/// The line that a selected frame contributes: `path:line` and a newline.
pub open spec fn frame_text(f: Frame) -> Seq<char> {
    f.path->Some_0@ + seq![':'] + decimal(f.line->Some_0 as nat) + seq!['\n']
}

/// The signature of a stack: the lines of its selected frames, in stack order.
pub open spec fn signature_of(frames: Seq<Frame>, tag: Seq<u8>, min_len: nat) -> Seq<char>
    decreases frames.len(),
{
    if frames.len() == 0 {
        Seq::empty()
    } else {
        let last = frames.last();
        let rest = signature_of(frames.drop_last(), tag, min_len);
        if frame_selected(last, tag, min_len) {
            rest + frame_text(last)
        } else {
            rest
        }
    }
}

/// Relies on String::push: the character is appended.
#[verifier::external_body]
fn push_char(s: &mut String, c: char)
    ensures
        final(s)@ == old(s)@.push(c),
{
    s.push(c)
}

/// Whether `needle` occurs in `hay`.
pub fn contains_slice(hay: &[u8], needle: &[u8]) -> (r: bool)
    ensures
        r == contains_bytes(hay@, needle@),
{
    if needle.len() > hay.len() {
        assert forall|i: int| !occurs_at(hay@, needle@, i) by {}
        return false;
    }
    let hay_len: usize = hay.len();
    let last: usize = hay_len - needle.len();
    let mut i: usize = 0;
    loop
        invariant
            hay_len == hay@.len(),
            last == hay@.len() - needle@.len(),
            i <= last,
            forall|k: int| 0 <= k < i ==> !occurs_at(hay@, needle@, k),
        decreases last - i,
    {
        let mut j: usize = 0;
        let mut same = true;
        while j < needle.len()
            invariant
                hay_len == hay@.len(),
                i <= last,
                last == hay@.len() - needle@.len(),
                j <= needle@.len(),
                same == (forall|m: int| 0 <= m < j ==> hay@[i + m] == needle@[m]),
            decreases needle@.len() - j,
        {
            if hay[i + j] != needle[j] {
                same = false;
            }
            j = j + 1;
        }
        if same {
            assert(hay@.subrange(i as int, i + needle@.len()) =~= needle@);
            assert(occurs_at(hay@, needle@, i as int));
            return true;
        }
        assert(!occurs_at(hay@, needle@, i as int)) by {
            let m = choose|m: int| 0 <= m < needle@.len() && hay@[i + m] != needle@[m];
            assert(hay@.subrange(i as int, i + needle@.len())[m] == hay@[i + m]);
        }
        if i == last {
            assert(forall|k: int| !occurs_at(hay@, needle@, k));
            return false;
        }
        i = i + 1;
    }
}

/// Appends the decimal notation of `n`.
fn push_decimal(s: &mut String, n: u32)
    ensures
        final(s)@ == old(s)@ + decimal(n as nat),
    decreases n,
{
    if n >= 10 {
        push_decimal(s, n / 10);
    }
    let d: u32 = n % 10;
    push_char(s, char_of_digit(d));
    assert(s@ =~= old(s)@ + decimal(n as nat));
}

/// The character of digit `d`.
fn char_of_digit(d: u32) -> (c: char)
    requires
        d < 10,
    ensures
        c == digit_char(d as nat),
{
    ((d + 48) as u8) as char
}

/// Whether a frame belongs in the signature.
pub fn is_selected(f: &Frame, tag: &str, min_len: usize) -> (r: bool)
    ensures
        r == frame_selected(*f, tag.spec_bytes(), min_len as nat),
{
    match (&f.path, &f.line) {
        (Some(p), Some(_)) => {
            let path = p.as_str();
            let hay = path.as_bytes();
            let needle = tag.as_bytes();
            hay.len() > min_len && contains_slice(hay, needle)
        },
        _ => false,
    }
}

/// The signature of `frames`: `path:line` and a newline for every frame whose
/// path and line resolved, whose path is longer than `min_len` bytes and
/// contains `tag`, in the order of `frames`.
pub fn build_signature(frames: &Vec<Frame>, tag: &str, min_len: usize) -> (r: String)
    ensures
        r@ == signature_of(frames@, tag.spec_bytes(), min_len as nat),
{
    let mut sig = String::new();
    let mut i: usize = 0;
    while i < frames.len()
        invariant
            i <= frames@.len(),
            sig@ == signature_of(frames@.subrange(0, i as int), tag.spec_bytes(), min_len as nat),
        decreases frames@.len() - i,
    {
        let f = &frames[i];
        if is_selected(f, tag, min_len) {
            match (&f.path, f.line) {
                (Some(p), Some(line)) => {
                    sig.append(p.as_str());
                    push_char(&mut sig, ':');
                    push_decimal(&mut sig, line);
                    push_char(&mut sig, '\n');
                },
                _ => {},
            }
        }
        assert(frames@.subrange(0, i + 1).drop_last() =~= frames@.subrange(0, i as int));
        assert(sig@ =~= signature_of(frames@.subrange(0, i + 1), tag.spec_bytes(), min_len as nat));
        i = i + 1;
    }
    assert(frames@.subrange(0, frames@.len() as int) =~= frames@);
    sig
}

/// Relies on backtrace::trace and backtrace::resolve_frame, which walk the
/// calling thread's stack and resolve each frame to symbols: every symbol
/// becomes one `Frame`, with its file as text and its line where they
/// resolved. What the stack holds is not known here, so nothing is promised.
#[verifier::external_body]
fn resolved_frames() -> (r: Vec<Frame>) {
    let mut frames: Vec<Frame> = Vec::new();
    backtrace::trace(|f| {
        backtrace::resolve_frame(f, |sym| {
            let path = sym.filename().and_then(|p| p.to_str()).map(|p| p.to_string());
            frames.push(Frame { path, line: sym.lineno() });
        });
        true
    });
    frames
}

/// The signature of the calling thread's current stack, with the instrumented
/// path tag and the minimum path length: empty where no frame is selected.
pub fn call_site_signature() -> (r: String)
    ensures
        exists|frames: Seq<Frame>|
            r@ == signature_of(frames, TRACED_PATH_TAG.spec_bytes(), MIN_PATH_LEN as nat),
{
    let frames = resolved_frames();
    let r = build_signature(&frames, TRACED_PATH_TAG, MIN_PATH_LEN);
    assert(r@ == signature_of(frames@, TRACED_PATH_TAG.spec_bytes(), MIN_PATH_LEN as nat));
    r
}

} // verus!
