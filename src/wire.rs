use vstd::prelude::*;
use vstd::slice::slice_subrange;
use crate::digits::{
    all_digits, digits, digits_value, is_digit, lemma_digits_shape, lemma_digits_u64,
    lemma_digits_unique, lemma_prefix_value, write_digits,
};

verus! {

/// Metadata sent in front of every frame payload.
#[derive(Clone, Copy, Debug, PartialEq, Eq, Structural)]
pub struct FrameHeader {
    pub width: u32,
    pub height: u32,
    pub compressed: bool,
    /// Milliseconds since the Unix epoch when the message was built.
    pub timestamp: u64,
    pub frame_id: u64,
}

pub open spec fn key_width() -> Seq<u8> {
    seq![123u8, 34, 119, 105, 100, 116, 104, 34, 58]
}

pub open spec fn key_height() -> Seq<u8> {
    seq![44u8, 34, 104, 101, 105, 103, 104, 116, 34, 58]
}

pub open spec fn key_compressed() -> Seq<u8> {
    seq![44u8, 34, 99, 111, 109, 112, 114, 101, 115, 115, 101, 100, 34, 58]
}

pub open spec fn key_timestamp() -> Seq<u8> {
    seq![44u8, 34, 116, 105, 109, 101, 115, 116, 97, 109, 112, 34, 58]
}

pub open spec fn key_frame_id() -> Seq<u8> {
    seq![44u8, 34, 102, 114, 97, 109, 101, 95, 105, 100, 34, 58]
}

pub open spec fn closing_brace() -> Seq<u8> {
    seq![125u8]
}

pub open spec fn bool_text(b: bool) -> Seq<u8> {
    if b {
        seq![116u8, 114, 117, 101]
    } else {
        seq![102u8, 97, 108, 115, 101]
    }
}

/// The header as compact JSON text, fields in declaration order:
/// `{"width":W,"height":H,"compressed":C,"timestamp":T,"frame_id":F}`.
pub open spec fn header_text(h: FrameHeader) -> Seq<u8> {
    key_width() + (digits(h.width as nat) + (key_height() + (digits(h.height as nat) + (
    key_compressed() + (bool_text(h.compressed) + (key_timestamp() + (digits(h.timestamp as nat) + (
    key_frame_id() + (digits(h.frame_id as nat) + closing_brace())))))))))
}

/// The four little-endian bytes of `n`.
pub open spec fn le_bytes(n: u32) -> Seq<u8> {
    seq![
        (n % 256) as u8,
        (n / 256 % 256) as u8,
        (n / 65536 % 256) as u8,
        (n / 16777216) as u8,
    ]
}

/// The number that four little-endian bytes stand for.
pub open spec fn le_value(b: Seq<u8>) -> int {
    b[0] + 256 * b[1] + 65536 * b[2] + 16777216 * b[3]
}

/// A whole message: header length, header text, payload.
pub open spec fn wire_bytes(h: FrameHeader, payload: Seq<u8>) -> Seq<u8> {
    le_bytes(header_text(h).len() as u32) + header_text(h) + payload
}

/// What a message decodes to: the one header and payload whose encoding it is,
/// or nothing when it is the encoding of none.
pub open spec fn decoded(bytes: Seq<u8>) -> Option<(FrameHeader, Seq<u8>)> {
    if exists|h: FrameHeader, p: Seq<u8>| bytes == wire_bytes(h, p) {
        let (h, p) = choose|h: FrameHeader, p: Seq<u8>| bytes == wire_bytes(h, p);
        Some((h, p))
    } else {
        None
    }
}

proof fn lemma_peel(p: Seq<u8>, x: Seq<u8>, y: Seq<u8>)
    requires
        p + x == p + y,
    ensures
        x == y,
{
    assert(x =~= (p + x).skip(p.len() as int));
    assert(y =~= (p + y).skip(p.len() as int));
}

proof fn lemma_le_value(n: u32)
    ensures
        le_value(le_bytes(n)) == n,
{
    let b = le_bytes(n);
    assert(b[0] + 256 * b[1] + 65536 * b[2] + 16777216 * b[3] == n) by (nonlinear_arith)
        requires
            b[0] == n % 256,
            b[1] == n / 256 % 256,
            b[2] == n / 65536 % 256,
            b[3] == n / 16777216,
            0 <= n < 0x1_0000_0000,
    {
    }
}

/// Every header's text fits in a few hundred bytes.
pub proof fn lemma_header_text_len(h: FrameHeader)
    ensures
        header_text(h).len() <= 160,
{
    lemma_digits_u64(h.width as u64);
    lemma_digits_u64(h.height as u64);
    lemma_digits_u64(h.timestamp);
    lemma_digits_u64(h.frame_id);
}

/// Two headers with the same text are the same header.
pub proof fn lemma_header_text_injective(h1: FrameHeader, h2: FrameHeader)
    requires
        header_text(h1) == header_text(h2),
    ensures
        h1 == h2,
{
    let t1 = key_height() + (digits(h1.height as nat) + (key_compressed() + (bool_text(h1.compressed) + (
    key_timestamp() + (digits(h1.timestamp as nat) + (key_frame_id() + (digits(h1.frame_id as nat)
        + closing_brace())))))));
    let t2 = key_height() + (digits(h2.height as nat) + (key_compressed() + (bool_text(h2.compressed) + (
    key_timestamp() + (digits(h2.timestamp as nat) + (key_frame_id() + (digits(h2.frame_id as nat)
        + closing_brace())))))));
    lemma_peel(key_width(), digits(h1.width as nat) + t1, digits(h2.width as nat) + t2);
    lemma_digits_unique(h1.width as nat, h2.width as nat, t1, t2);
    let u1 = key_compressed() + (bool_text(h1.compressed) + (key_timestamp() + (digits(h1.timestamp as nat)
        + (key_frame_id() + (digits(h1.frame_id as nat) + closing_brace())))));
    let u2 = key_compressed() + (bool_text(h2.compressed) + (key_timestamp() + (digits(h2.timestamp as nat)
        + (key_frame_id() + (digits(h2.frame_id as nat) + closing_brace())))));
    lemma_peel(key_height(), digits(h1.height as nat) + u1, digits(h2.height as nat) + u2);
    lemma_digits_unique(h1.height as nat, h2.height as nat, u1, u2);
    let v1 = key_timestamp() + (digits(h1.timestamp as nat) + (key_frame_id() + (digits(h1.frame_id as nat)
        + closing_brace())));
    let v2 = key_timestamp() + (digits(h2.timestamp as nat) + (key_frame_id() + (digits(h2.frame_id as nat)
        + closing_brace())));
    lemma_peel(key_compressed(), bool_text(h1.compressed) + v1, bool_text(h2.compressed) + v2);
    assert(h1.compressed == h2.compressed) by {
        let s = bool_text(h1.compressed) + v1;
        assert(s[0] == bool_text(h1.compressed)[0]);
        assert(s[0] == bool_text(h2.compressed)[0]);
    }
    lemma_peel(bool_text(h1.compressed), v1, v2);
    let w1 = key_frame_id() + (digits(h1.frame_id as nat) + closing_brace());
    let w2 = key_frame_id() + (digits(h2.frame_id as nat) + closing_brace());
    lemma_peel(key_timestamp(), digits(h1.timestamp as nat) + w1, digits(h2.timestamp as nat) + w2);
    lemma_digits_unique(h1.timestamp as nat, h2.timestamp as nat, w1, w2);
    lemma_peel(key_frame_id(), digits(h1.frame_id as nat) + closing_brace(), digits(h2.frame_id as nat) + closing_brace());
    lemma_digits_unique(h1.frame_id as nat, h2.frame_id as nat, closing_brace(), closing_brace());
}

/// Framing is one to one: a message is the encoding of exactly one header
/// and payload.
pub proof fn lemma_wire_injective(h1: FrameHeader, pos1: Seq<u8>, h2: FrameHeader, pos2: Seq<u8>)
    requires
        wire_bytes(h1, pos1) == wire_bytes(h2, pos2),
    ensures
        h1 == h2,
        pos1 == pos2,
{
    let s = wire_bytes(h1, pos1);
    let n1 = header_text(h1).len() as int;
    let n2 = header_text(h2).len() as int;
    lemma_header_text_len(h1);
    lemma_header_text_len(h2);
    lemma_le_value(n1 as u32);
    lemma_le_value(n2 as u32);
    assert(le_bytes(n1 as u32) =~= s.take(4));
    assert(le_bytes(n2 as u32) =~= s.take(4));
    assert(n1 == n2);
    assert(header_text(h1) =~= s.subrange(4, 4 + n1));
    assert(header_text(h2) =~= s.subrange(4, 4 + n1));
    lemma_header_text_injective(h1, h2);
    assert(pos1 =~= s.skip(4 + n1));
    assert(pos2 =~= s.skip(4 + n1));
}

/// Decoding an encoded message gives back its header and payload.
pub proof fn lemma_round_trip(h: FrameHeader, payload: Seq<u8>)
    ensures
        decoded(wire_bytes(h, payload)) == Some((h, payload)),
{
    let bytes = wire_bytes(h, payload);
    assert(exists|h2: FrameHeader, pos2: Seq<u8>| bytes == wire_bytes(h2, pos2));
    let (h2, pos2) = choose|h2: FrameHeader, pos2: Seq<u8>| bytes == wire_bytes(h2, pos2);
    lemma_wire_injective(h, payload, h2, pos2);
}

pub open spec fn tail_width(h: FrameHeader) -> Seq<u8> {
    digits(h.width as nat) + (key_height() + tail_height(h))
}

pub open spec fn tail_height(h: FrameHeader) -> Seq<u8> {
    digits(h.height as nat) + (key_compressed() + tail_compressed(h))
}

pub open spec fn tail_compressed(h: FrameHeader) -> Seq<u8> {
    bool_text(h.compressed) + (key_timestamp() + tail_timestamp(h))
}

pub open spec fn tail_timestamp(h: FrameHeader) -> Seq<u8> {
    digits(h.timestamp as nat) + (key_frame_id() + tail_frame_id(h))
}

pub open spec fn tail_frame_id(h: FrameHeader) -> Seq<u8> {
    digits(h.frame_id as nat) + closing_brace()
}

proof fn lemma_skip_concat(text: Seq<u8>, pos: int, a: Seq<u8>, b: Seq<u8>)
    requires
        0 <= pos <= text.len(),
        text.skip(pos) == a + b,
    ensures
        pos + a.len() <= text.len(),
        text.skip(pos + a.len()) == b,
        text.subrange(pos, pos + a.len()) == a,
{
    assert(text.skip(pos).len() == text.len() - pos);
    assert(text.skip(pos + a.len()) =~= (a + b).skip(a.len() as int));
    assert(b =~= (a + b).skip(a.len() as int));
    assert(text.subrange(pos, pos + a.len()) =~= (a + b).take(a.len() as int));
    assert(a =~= (a + b).take(a.len() as int));
}

/// What a digit run read from the front of `digits(n) + rest` must be.
proof fn lemma_run(t: Seq<u8>, n: nat, rest: Seq<u8>, e: int)
    requires
        t == digits(n) + rest,
        rest.len() > 0 ==> !is_digit(rest[0]),
        0 < e <= t.len(),
        all_digits(t.take(e)),
    ensures
        e <= digits(n).len(),
        digits_value(t.take(e)) <= n,
        (e == t.len() || !is_digit(t[e])) ==> e == digits(n).len() && digits_value(t.take(e)) == n,
{
    lemma_digits_shape(n);
    let d = digits(n).len() as int;
    if e > d {
        assert(t.take(e)[d] == rest[0]);
    }
    assert(t.take(e) =~= digits(n).take(e));
    lemma_prefix_value(digits(n), e);
    assert(digits(n).take(d) =~= digits(n));
    if e < d && (e == t.len() || !is_digit(t[e])) {
        assert(t[e] == digits(n)[e]);
    }
}

/// Appends `src` to `out`.
pub(crate) fn push_bytes(out: &mut Vec<u8>, src: &[u8])
    ensures
        final(out)@ == old(out)@ + src@,
{
    let mut i: usize = 0;
    while i < src.len()
        invariant
            i <= src.len(),
            out@ == old(out)@ + src@.take(i as int),
        decreases src.len() - i,
    {
        out.push(src[i]);
        i = i + 1;
        assert(out@ =~= old(out)@ + src@.take(i as int));
    }
    assert(src@.take(i as int) =~= src@);
}

fn push_key_width(out: &mut Vec<u8>)
    ensures
        final(out)@ == old(out)@ + key_width(),
{
    let k: [u8; 9] = [123, 34, 119, 105, 100, 116, 104, 34, 58];
    assert(k@ =~= key_width());
    push_bytes(out, k.as_slice());
}

fn push_key_height(out: &mut Vec<u8>)
    ensures
        final(out)@ == old(out)@ + key_height(),
{
    let k: [u8; 10] = [44, 34, 104, 101, 105, 103, 104, 116, 34, 58];
    assert(k@ =~= key_height());
    push_bytes(out, k.as_slice());
}

fn push_key_compressed(out: &mut Vec<u8>)
    ensures
        final(out)@ == old(out)@ + key_compressed(),
{
    let k: [u8; 14] = [44, 34, 99, 111, 109, 112, 114, 101, 115, 115, 101, 100, 34, 58];
    assert(k@ =~= key_compressed());
    push_bytes(out, k.as_slice());
}

fn push_key_timestamp(out: &mut Vec<u8>)
    ensures
        final(out)@ == old(out)@ + key_timestamp(),
{
    let k: [u8; 13] = [44, 34, 116, 105, 109, 101, 115, 116, 97, 109, 112, 34, 58];
    assert(k@ =~= key_timestamp());
    push_bytes(out, k.as_slice());
}

fn push_key_frame_id(out: &mut Vec<u8>)
    ensures
        final(out)@ == old(out)@ + key_frame_id(),
{
    let k: [u8; 12] = [44, 34, 102, 114, 97, 109, 101, 95, 105, 100, 34, 58];
    assert(k@ =~= key_frame_id());
    push_bytes(out, k.as_slice());
}

fn push_bool(out: &mut Vec<u8>, b: bool)
    ensures
        final(out)@ == old(out)@ + bool_text(b),
{
    if b {
        let k: [u8; 4] = [116, 114, 117, 101];
        assert(k@ =~= bool_text(true));
        push_bytes(out, k.as_slice());
    } else {
        let k: [u8; 5] = [102, 97, 108, 115, 101];
        assert(k@ =~= bool_text(false));
        push_bytes(out, k.as_slice());
    }
}

fn push_tail_frame_id(out: &mut Vec<u8>, h: &FrameHeader)
    ensures
        final(out)@ == old(out)@ + tail_frame_id(*h),
{
    write_digits(out, h.frame_id);
    out.push(125);
    assert(out@ =~= old(out)@ + tail_frame_id(*h));
}

fn push_tail_timestamp(out: &mut Vec<u8>, h: &FrameHeader)
    ensures
        final(out)@ == old(out)@ + tail_timestamp(*h),
{
    write_digits(out, h.timestamp);
    push_key_frame_id(out);
    push_tail_frame_id(out, h);
    assert(out@ =~= old(out)@ + tail_timestamp(*h));
}

fn push_tail_compressed(out: &mut Vec<u8>, h: &FrameHeader)
    ensures
        final(out)@ == old(out)@ + tail_compressed(*h),
{
    push_bool(out, h.compressed);
    push_key_timestamp(out);
    push_tail_timestamp(out, h);
    assert(out@ =~= old(out)@ + tail_compressed(*h));
}

fn push_tail_height(out: &mut Vec<u8>, h: &FrameHeader)
    ensures
        final(out)@ == old(out)@ + tail_height(*h),
{
    write_digits(out, h.height as u64);
    push_key_compressed(out);
    push_tail_compressed(out, h);
    assert(out@ =~= old(out)@ + tail_height(*h));
}

fn push_tail_width(out: &mut Vec<u8>, h: &FrameHeader)
    ensures
        final(out)@ == old(out)@ + tail_width(*h),
{
    write_digits(out, h.width as u64);
    push_key_height(out);
    push_tail_height(out, h);
    assert(out@ =~= old(out)@ + tail_width(*h));
}

/// The header's text, as bytes.
pub fn encode_header(h: &FrameHeader) -> (r: Vec<u8>)
    ensures
        r@ == header_text(*h),
{
    let mut out: Vec<u8> = Vec::new();
    push_key_width(&mut out);
    push_tail_width(&mut out, h);
    assert(out@ =~= header_text(*h));
    out
}

/// Frames a header and a payload into one message: the header's length as four
/// little-endian bytes, the header's text, then the payload.
pub fn encode_message(header: &FrameHeader, payload: &[u8]) -> (r: Vec<u8>)
    ensures
        r@ == wire_bytes(*header, payload@),
{
    let text = encode_header(header);
    proof {
        lemma_header_text_len(*header);
    }
    let n: u32 = text.len() as u32;
    let mut out: Vec<u8> = Vec::new();
    out.push((n % 256) as u8);
    out.push((n / 256 % 256) as u8);
    out.push((n / 65536 % 256) as u8);
    out.push((n / 16777216) as u8);
    assert(out@ =~= le_bytes(n));
    push_bytes(&mut out, text.as_slice());
    push_bytes(&mut out, payload);
    assert(out@ =~= wire_bytes(*header, payload@));
    out
}

/// Whether `lit` stands in `text` at `pos`.
fn has_at(text: &[u8], pos: usize, lit: &[u8]) -> (r: bool)
    requires
        pos <= text.len(),
    ensures
        r == (pos + lit.len() <= text.len() && text@.subrange(pos as int, pos + lit.len()) == lit@),
{
    if lit.len() > text.len() - pos {
        return false;
    }
    let mut i: usize = 0;
    while i < lit.len()
        invariant
            i <= lit.len(),
            pos + lit.len() <= text.len(),
            forall|j: int| 0 <= j < i ==> text@[pos + j] == lit@[j],
        decreases lit.len() - i,
    {
        if text[pos + i] != lit[i] {
            assert(text@.subrange(pos as int, pos + lit.len())[i as int] != lit@[i as int]);
            return false;
        }
        i = i + 1;
    }
    assert(text@.subrange(pos as int, pos + lit.len()) =~= lit@);
    true
}

/// Reads the run of decimal digits that starts at `pos`: its value and where
/// it ends. Nothing when there is no digit at `pos` or the value passes the
/// `u64` range.
fn read_number(text: &[u8], pos: usize) -> (r: Option<(u64, usize)>)
    requires
        pos <= text.len(),
    ensures
        r matches Some((v, e)) ==> {
            &&& pos < e <= text.len()
            &&& all_digits(text@.subrange(pos as int, e as int))
            &&& (e == text.len() || !is_digit(text@[e as int]))
            &&& digits_value(text@.subrange(pos as int, e as int)) == v
        },
        r is None ==> pos == text.len() || !is_digit(text@[pos as int]) || exists|e: int|
            pos < e <= text.len() && all_digits(#[trigger] text@.subrange(pos as int, e))
                && digits_value(text@.subrange(pos as int, e)) > u64::MAX,
{
    if pos == text.len() || !(48 <= text[pos] && text[pos] <= 57) {
        return None;
    }
    let mut v: u64 = 0;
    let mut e: usize = pos;
    while e < text.len() && 48 <= text[e] && text[e] <= 57
        invariant
            pos <= e <= text.len(),
            e == pos ==> v == 0,
            pos < text.len() && is_digit(text@[pos as int]),
            all_digits(text@.subrange(pos as int, e as int)),
            digits_value(text@.subrange(pos as int, e as int)) == v,
        decreases text.len() - e,
    {
        let d: u64 = (text[e] - 48) as u64;
        let ghost next = text@.subrange(pos as int, e + 1);
        assert(next.drop_last() =~= text@.subrange(pos as int, e as int));
        assert(all_digits(next));
        if v > (u64::MAX - d) / 10 {
            assert(digits_value(next) > u64::MAX);
            return None;
        }
        v = v * 10 + d;
        e = e + 1;
    }
    Some((v, e))
}

/// Reads the width and height at the front of a header's text, and where the
/// rest starts.
fn read_size_fields(text: &[u8]) -> (r: Option<(u32, u32, usize)>)
    ensures
        r matches Some((w, hh, p)) ==> p <= text.len(),
        forall|h: FrameHeader| #[trigger] header_text(h) == text@ ==>
            (r matches Some((w, hh, p)) && w == h.width && hh == h.height && text@.skip(p as int) == tail_compressed(h)),
{
    let ghost has = exists|h: FrameHeader| text@ == header_text(h);
    let ghost h0 = choose|h: FrameHeader| text@ == header_text(h);
    let kw: [u8; 9] = [123, 34, 119, 105, 100, 116, 104, 34, 58];
    let kh: [u8; 10] = [44, 34, 104, 101, 105, 103, 104, 116, 34, 58];
    let kc: [u8; 14] = [44, 34, 99, 111, 109, 112, 114, 101, 115, 115, 101, 100, 34, 58];
    assert(kw@ =~= key_width());
    assert(kh@ =~= key_height());
    assert(kc@ =~= key_compressed());
    let ghost t = text@;
    proof {
        if has {
            assert(t.skip(0) =~= t);
            lemma_skip_concat(t, 0, key_width(), tail_width(h0));
        }
    }
    if !has_at(text, 0, kw.as_slice()) {
        return None;
    }
    let pos1: usize = 9;
    // width
    let (width, pos2) = match read_number(text, pos1) {
        Some(x) => x,
        None => {
            proof {
                if has {
                    lemma_num_complete(t, pos1 as int, h0.width as nat, key_height() + tail_height(h0));
                }
            }
            return None;
        },
    };
    proof {
        if has {
            lemma_num_found(t, pos1 as int, h0.width as nat, key_height() + tail_height(h0), width as int, pos2 as int);
            lemma_skip_concat(t, pos2 as int, key_height(), tail_height(h0));
        }
    }
    if width > u32::MAX as u64 || !has_at(text, pos2, kh.as_slice()) {
        return None;
    }
    let pos3: usize = pos2 + 10;
    // height
    let (height, pos4) = match read_number(text, pos3) {
        Some(x) => x,
        None => {
            proof {
                if has {
                    lemma_num_complete(t, pos3 as int, h0.height as nat, key_compressed() + tail_compressed(h0));
                }
            }
            return None;
        },
    };
    proof {
        if has {
            lemma_num_found(t, pos3 as int, h0.height as nat, key_compressed() + tail_compressed(h0), height as int, pos4 as int);
            lemma_skip_concat(t, pos4 as int, key_compressed(), tail_compressed(h0));
        }
    }
    if height > u32::MAX as u64 || !has_at(text, pos4, kc.as_slice()) {
        return None;
    }
    let pos5: usize = pos4 + 14;
    proof {
        if has {
            lemma_skip_concat(t, pos4 as int, key_compressed(), tail_compressed(h0));
            assert forall|h: FrameHeader| #[trigger] header_text(h) == text@ implies h == h0 by {
                lemma_header_text_injective(h, h0);
            }
        }
    }
    Some((width as u32, height as u32, pos5))
}

/// Reads the flag, time stamp and frame id that follow the sizes in a
/// header's text, starting at `pos5`.
fn read_flag_fields(text: &[u8], pos5: usize) -> (r: Option<(bool, u64, u64)>)
    requires
        pos5 <= text.len(),
    ensures
        forall|h: FrameHeader| #[trigger] tail_compressed(h) == text@.skip(pos5 as int) ==>
            r == Some((h.compressed, h.timestamp, h.frame_id)),
{
    let ghost has = exists|h: FrameHeader| text@.skip(pos5 as int) == tail_compressed(h);
    let ghost h0 = choose|h: FrameHeader| text@.skip(pos5 as int) == tail_compressed(h);
    let kt: [u8; 13] = [44, 34, 116, 105, 109, 101, 115, 116, 97, 109, 112, 34, 58];
    let kf: [u8; 12] = [44, 34, 102, 114, 97, 109, 101, 95, 105, 100, 34, 58];
    let yes: [u8; 4] = [116, 114, 117, 101];
    let no: [u8; 5] = [102, 97, 108, 115, 101];
    assert(kt@ =~= key_timestamp());
    assert(kf@ =~= key_frame_id());
    assert(yes@ =~= bool_text(true));
    assert(no@ =~= bool_text(false));
    let ghost t = text@;
    // compressed
    let compressed: bool;
    let pos6: usize;
    proof {
        if has {
            lemma_skip_concat(t, pos5 as int, bool_text(h0.compressed), key_timestamp() + tail_timestamp(h0));
        }
    }
    if has_at(text, pos5, yes.as_slice()) {
        compressed = true;
        pos6 = pos5 + 4;
        proof {
            if has && !h0.compressed {
                assert(t.subrange(pos5 as int, pos5 + 4)[0] == t.subrange(pos5 as int, pos5 + 5)[0]);
            }
        }
    } else if has_at(text, pos5, no.as_slice()) {
        compressed = false;
        pos6 = pos5 + 5;
    } else {
        proof {
            assert(!has);
            assert forall|h: FrameHeader| #[trigger] tail_compressed(h) != text@.skip(pos5 as int) by {
                if tail_compressed(h) == text@.skip(pos5 as int) {
                    assert(has);
                }
            }
        }
        return None;
    }
    proof {
        if has {
            assert(compressed == h0.compressed);
            lemma_skip_concat(t, pos6 as int, key_timestamp(), tail_timestamp(h0));
        }
    }
    if !has_at(text, pos6, kt.as_slice()) {
        return None;
    }
    let pos7: usize = pos6 + 13;
    // timestamp
    let (timestamp, pos8) = match read_number(text, pos7) {
        Some(x) => x,
        None => {
            proof {
                if has {
                    lemma_num_complete(t, pos7 as int, h0.timestamp as nat, key_frame_id() + tail_frame_id(h0));
                }
            }
            return None;
        },
    };
    proof {
        if has {
            lemma_num_found(t, pos7 as int, h0.timestamp as nat, key_frame_id() + tail_frame_id(h0), timestamp as int, pos8 as int);
            lemma_skip_concat(t, pos8 as int, key_frame_id(), tail_frame_id(h0));
        }
    }
    if !has_at(text, pos8, kf.as_slice()) {
        return None;
    }
    let pos9: usize = pos8 + 12;
    // frame id
    let (frame_id, pos10) = match read_number(text, pos9) {
        Some(x) => x,
        None => {
            proof {
                if has {
                    lemma_num_complete(t, pos9 as int, h0.frame_id as nat, closing_brace());
                }
            }
            return None;
        },
    };
    proof {
        if has {
            lemma_num_found(t, pos9 as int, h0.frame_id as nat, closing_brace(), frame_id as int, pos10 as int);
        }
    }
    proof {
        if has {
            assert forall|h: FrameHeader| #[trigger] tail_compressed(h) == text@.skip(pos5 as int) implies
                h.compressed == h0.compressed && h.timestamp == h0.timestamp && h.frame_id == h0.frame_id by {
                let hw = FrameHeader { width: 0, height: 0, ..h };
                let hw0 = FrameHeader { width: 0, height: 0, ..h0 };
                assert(header_text(hw) =~= key_width() + (digits(0) + (key_height() + (digits(0) + (key_compressed() + tail_compressed(h))))));
                assert(header_text(hw0) =~= key_width() + (digits(0) + (key_height() + (digits(0) + (key_compressed() + tail_compressed(h0))))));
                lemma_header_text_injective(hw, hw0);
            }
        }
    }
    Some((compressed, timestamp, frame_id))
}

/// Reads a header from its exact text; nothing when `text` is the text of no
/// header.
pub fn parse_header(text: &[u8]) -> (r: Option<FrameHeader>)
    ensures
        r matches Some(h) ==> text@ == header_text(h),
        r is None ==> forall|h: FrameHeader| text@ != header_text(h),
{
    let (width, height, pos5) = match read_size_fields(text) {
        Some(x) => x,
        None => {
            return None;
        },
    };
    let (compressed, timestamp, frame_id) = match read_flag_fields(text, pos5) {
        Some(x) => x,
        None => {
            return None;
        },
    };
    let h = FrameHeader { width, height, compressed, timestamp, frame_id };
    let again = encode_header(&h);
    if bytes_equal(again.as_slice(), text) {
        Some(h)
    } else {
        proof {
            assert forall|h1: FrameHeader| text@ != header_text(h1) by {
                if text@ == header_text(h1) {
                    assert(h1 == h);
                }
            }
        }
        None
    }
}

proof fn lemma_num_complete(t: Seq<u8>, pos: int, n: nat, rest: Seq<u8>)
    requires
        0 <= pos <= t.len(),
        t.skip(pos) == digits(n) + rest,
        rest.len() > 0 ==> !is_digit(rest[0]),
        n <= u64::MAX,
    ensures
        pos < t.len(),
        is_digit(t[pos]),
        forall|e: int|
            pos < e <= t.len() && all_digits(#[trigger] t.subrange(pos, e)) ==> digits_value(t.subrange(pos, e)) <= u64::MAX,
{
    lemma_digits_shape(n);
    assert(t.skip(pos).len() == t.len() - pos);
    assert((digits(n) + rest).len() >= 1);
    assert(t[pos] == t.skip(pos)[0]);
    assert forall|e: int| pos < e <= t.len() && all_digits(#[trigger] t.subrange(pos, e)) implies
        digits_value(t.subrange(pos, e)) <= u64::MAX by {
        assert(t.subrange(pos, e) =~= t.skip(pos).take(e - pos));
        lemma_run(t.skip(pos), n, rest, e - pos);
    }
}

proof fn lemma_num_found(t: Seq<u8>, pos: int, n: nat, rest: Seq<u8>, v: int, e: int)
    requires
        0 <= pos <= t.len(),
        t.skip(pos) == digits(n) + rest,
        rest.len() > 0 ==> !is_digit(rest[0]),
        pos < e <= t.len(),
        all_digits(t.subrange(pos, e)),
        e == t.len() || !is_digit(t[e]),
        digits_value(t.subrange(pos, e)) == v,
    ensures
        v == n,
        e == pos + digits(n).len(),
        t.skip(e) == rest,
{
    assert(t.subrange(pos, e) =~= t.skip(pos).take(e - pos));
    if e < t.len() {
        assert(t[e] == t.skip(pos)[e - pos]);
    }
    lemma_run(t.skip(pos), n, rest, e - pos);
    lemma_skip_concat(t, pos, digits(n), rest);
}

/// Whether two byte strings are equal.
fn bytes_equal(a: &[u8], b: &[u8]) -> (r: bool)
    ensures
        r == (a@ == b@),
{
    if a.len() != b.len() {
        return false;
    }
    let mut i: usize = 0;
    while i < a.len()
        invariant
            i <= a.len(),
            a.len() == b.len(),
            forall|j: int| 0 <= j < i ==> a@[j] == b@[j],
        decreases a.len() - i,
    {
        if a[i] != b[i] {
            return false;
        }
        i = i + 1;
    }
    assert(a@ =~= b@);
    true
}

proof fn lemma_le_bytes(b: Seq<u8>)
    requires
        b.len() == 4,
    ensures
        0 <= le_value(b) <= u32::MAX,
        le_bytes(le_value(b) as u32) == b,
{
    let v = le_value(b);
    let (b0, b1, b2, b3) = (b[0] as int, b[1] as int, b[2] as int, b[3] as int);
    assert(0 <= v <= u32::MAX && v % 256 == b0 && v / 256 % 256 == b1 && v / 65536 % 256 == b2
        && v / 16777216 == b3) by (nonlinear_arith)
        requires
            v == b0 + 256 * b1 + 65536 * b2 + 16777216 * b3,
            0 <= b0 < 256,
            0 <= b1 < 256,
            0 <= b2 < 256,
            0 <= b3 < 256,
    {
    }
    assert(le_bytes(v as u32) =~= b);
}

proof fn lemma_message_shape(bytes: Seq<u8>, h: FrameHeader, p: Seq<u8>)
    requires
        bytes == wire_bytes(h, p),
    ensures
        bytes.len() >= 4 + header_text(h).len(),
        le_value(bytes.take(4)) == header_text(h).len(),
        bytes.subrange(4, 4 + header_text(h).len() as int) == header_text(h),
{
    lemma_header_text_len(h);
    lemma_le_value(header_text(h).len() as u32);
    assert(bytes.take(4) =~= le_bytes(header_text(h).len() as u32));
    assert(bytes.subrange(4, 4 + header_text(h).len() as int) =~= header_text(h));
}

proof fn lemma_message_parts(bytes: Seq<u8>, h: FrameHeader, len: int)
    requires
        4 + len <= bytes.len(),
        le_bytes(le_value(bytes.take(4)) as u32) == bytes.take(4),
        le_value(bytes.take(4)) == len,
        bytes.subrange(4, 4 + len) == header_text(h),
    ensures
        bytes == wire_bytes(h, bytes.skip(4 + len)),
{
    assert(bytes =~= wire_bytes(h, bytes.skip(4 + len)));
}

/// Splits a message into its header and payload; nothing when the bytes are
/// not a message (too short for the length prefix, a length past the end, or
/// a header text that no header has).
pub fn decode_message(bytes: &[u8]) -> (r: Option<(FrameHeader, Vec<u8>)>)
    ensures
        r matches Some((h, p)) ==> decoded(bytes@) == Some((h, p@)),
        r is None ==> decoded(bytes@) is None,
{
    if bytes.len() < 4 {
        proof {
            assert forall|h: FrameHeader, p: Seq<u8>| bytes@ != wire_bytes(h, p) by {
                if bytes@ == wire_bytes(h, p) {
                    lemma_message_shape(bytes@, h, p);
                }
            }
        }
        return None;
    }
    let n: u32 = bytes[0] as u32 + 256 * (bytes[1] as u32) + 65536 * (bytes[2] as u32)
        + 16777216 * (bytes[3] as u32);
    proof {
        lemma_le_bytes(bytes@.take(4));
        assert(n == le_value(bytes@.take(4)));
    }
    let len = n as usize;
    if len > bytes.len() - 4 {
        proof {
            assert forall|h: FrameHeader, p: Seq<u8>| bytes@ != wire_bytes(h, p) by {
                if bytes@ == wire_bytes(h, p) {
                    lemma_message_shape(bytes@, h, p);
                }
            }
        }
        return None;
    }
    let text = slice_subrange(bytes, 4, 4 + len);
    match parse_header(text) {
        Some(h) => {
            let rest = slice_subrange(bytes, 4 + len, bytes.len());
            let mut payload: Vec<u8> = Vec::new();
            push_bytes(&mut payload, rest);
            proof {
                assert(payload@ =~= bytes@.skip(4 + len));
                lemma_message_parts(bytes@, h, len as int);
                lemma_round_trip(h, payload@);
            }
            Some((h, payload))
        },
        None => {
            proof {
                assert forall|h: FrameHeader, p: Seq<u8>| bytes@ != wire_bytes(h, p) by {
                    if bytes@ == wire_bytes(h, p) {
                        lemma_message_shape(bytes@, h, p);
                    }
                }
            }
            None
        },
    }
}

} // verus!
