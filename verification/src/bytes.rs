//! Little-endian fields and C strings inside fixed-size event frames.

use vstd::prelude::*;

verus! {

/// Size of the kernel's `struct uhid_event`.
pub const UHID_EVENT_SIZE: usize = 4376;

/// The two bytes of `v`, least significant first.
pub open spec fn le16(v: u16) -> Seq<u8> {
    seq![(v % 256) as u8, (v / 256) as u8]
}

/// The four bytes of `v`, least significant first.
pub open spec fn le32(v: u32) -> Seq<u8> {
    seq![
        (v % 256) as u8,
        (v / 0x100 % 256) as u8,
        (v / 0x1_0000 % 256) as u8,
        (v / 0x100_0000) as u8,
    ]
}

/// The eight bytes of `v`, least significant first.
pub open spec fn le64(v: u64) -> Seq<u8> {
    le32((v % 0x1_0000_0000) as u32) + le32((v / 0x1_0000_0000) as u32)
}

/// The 16-bit number that starts at `off`.
pub open spec fn le16_at(s: Seq<u8>, off: int) -> u16 {
    (s[off] + 0x100 * s[off + 1]) as u16
}

/// The 32-bit number that starts at `off`.
pub open spec fn le32_at(s: Seq<u8>, off: int) -> u32 {
    (s[off] + 0x100 * s[off + 1] + 0x1_0000 * s[off + 2] + 0x100_0000 * s[off + 3]) as u32
}

/// The 64-bit number that starts at `off`.
pub open spec fn le64_at(s: Seq<u8>, off: int) -> u64 {
    (le32_at(s, off) + 0x1_0000_0000 * le32_at(s, off + 4)) as u64
}

/// `n` zero bytes.
pub open spec fn zeros(n: nat) -> Seq<u8> {
    Seq::new(n, |i: int| 0u8)
}

/// `s` followed by as many zero bytes as make it `n` bytes long.
pub open spec fn padded(s: Seq<u8>, n: nat) -> Seq<u8> {
    s + zeros((n - s.len()) as nat)
}

/// `frame` with `field` written over it from `off` on.
pub open spec fn splice(frame: Seq<u8>, off: int, field: Seq<u8>) -> Seq<u8> {
    Seq::new(
        frame.len(),
        |i: int| if off <= i < off + field.len() { field[i - off] } else { frame[i] },
    )
}

/// Where the text in `s` ends: at its first NUL byte, or else at its end.
pub open spec fn text_end(s: Seq<u8>) -> int
    decreases s.len(),
{
    if s.len() == 0 || s[0] == 0 {
        0
    } else {
        1 + text_end(s.drop_first())
    }
}

/// What a field of `len` bytes keeps of `s`: the text up to the first NUL,
/// cut so that at least one byte is left for the terminator.
pub open spec fn c_text(s: Seq<u8>, len: int) -> Seq<u8> {
    s.take(if text_end(s) < len - 1 { text_end(s) } else { len - 1 })
}

/// A field of `len` bytes that holds `s` as a NUL-terminated string.
pub open spec fn c_field(s: Seq<u8>, len: nat) -> Seq<u8> {
    padded(c_text(s, len as int), len)
}

/// A number reads back from a frame that holds its bytes.
pub proof fn lemma_le16_in(frame: Seq<u8>, off: int, v: u16)
    requires
        0 <= off,
        off + 2 <= frame.len(),
        frame.subrange(off, off + 2) == le16(v),
    ensures
        le16_at(frame, off) == v,
{
    let field = frame.subrange(off, off + 2);
    assert(frame[off] == field[0] && frame[off + 1] == field[1]);
}

/// A number reads back from a frame that holds its bytes.
pub proof fn lemma_le32_in(frame: Seq<u8>, off: int, v: u32)
    requires
        0 <= off,
        off + 4 <= frame.len(),
        frame.subrange(off, off + 4) == le32(v),
    ensures
        le32_at(frame, off) == v,
{
    let field = frame.subrange(off, off + 4);
    assert(frame[off] == field[0] && frame[off + 1] == field[1]);
    assert(frame[off + 2] == field[2] && frame[off + 3] == field[3]);
}

/// A number reads back from a frame that holds its bytes.
pub proof fn lemma_le64_in(frame: Seq<u8>, off: int, v: u64)
    requires
        0 <= off,
        off + 8 <= frame.len(),
        frame.subrange(off, off + 8) == le64(v),
    ensures
        le64_at(frame, off) == v,
{
    let field = frame.subrange(off, off + 8);
    let low = (v % 0x1_0000_0000) as u32;
    let high = (v / 0x1_0000_0000) as u32;
    assert(frame.subrange(off, off + 4) =~= field.subrange(0, 4));
    assert(field.subrange(0, 4) =~= le32(low));
    assert(frame.subrange(off + 4, off + 8) =~= field.subrange(4, 8));
    assert(field.subrange(4, 8) =~= le32(high));
    lemma_le32_in(frame, off, low);
    lemma_le32_in(frame, off + 4, high);
}

/// Reading a 16-bit number gives back what was written there.
pub proof fn law_u16_reads_back(frame: Seq<u8>, off: int, v: u16)
    requires
        0 <= off,
        off + 2 <= frame.len(),
    ensures
        le16_at(splice(frame, off, le16(v)), off) == v,
{
}

/// Reading a 32-bit number gives back what was written there.
pub proof fn law_u32_reads_back(frame: Seq<u8>, off: int, v: u32)
    requires
        0 <= off,
        off + 4 <= frame.len(),
    ensures
        le32_at(splice(frame, off, le32(v)), off) == v,
{
}

/// Reading a 64-bit number gives back what was written there.
pub proof fn law_u64_reads_back(frame: Seq<u8>, off: int, v: u64)
    requires
        0 <= off,
        off + 8 <= frame.len(),
    ensures
        le64_at(splice(frame, off, le64(v)), off) == v,
{
    let s = splice(frame, off, le64(v));
    assert(s.subrange(off, off + 8) =~= le64(v));
    lemma_le64_in(s, off, v);
}

/// A C string field is NUL-terminated, whatever it was filled from, and what
/// it keeps holds no NUL.
pub proof fn law_c_field_terminated(s: Seq<u8>, len: nat)
    requires
        len >= 1,
    ensures
        c_field(s, len).len() == len,
        c_field(s, len)[len - 1] == 0,
        forall|i: int| 0 <= i < c_text(s, len as int).len() ==> c_text(s, len as int)[i] != 0,
{
    lemma_text_end(s);
}

/// A name without NUL that leaves room for the terminator is kept whole.
pub proof fn law_c_field_keeps_short_text(s: Seq<u8>, len: nat)
    requires
        s.len() < len,
        !s.contains(0u8),
    ensures
        c_field(s, len).take(s.len() as int) == s,
        c_field(s, len)[s.len() as int] == 0,
{
    lemma_text_end(s);
    assert(s.take(s.len() as int) == s);
    assert(c_field(s, len).take(s.len() as int) == s);
}

pub proof fn lemma_text_end(s: Seq<u8>)
    ensures
        0 <= text_end(s) <= s.len(),
        forall|i: int| 0 <= i < text_end(s) ==> s[i] != 0,
        text_end(s) < s.len() ==> s[text_end(s)] == 0,
    decreases s.len(),
{
    if s.len() != 0 && s[0] != 0 {
        let rest = s.drop_first();
        lemma_text_end(rest);
        assert forall|i: int| 0 <= i < text_end(s) implies s[i] != 0 by {
            if i > 0 {
                assert(rest[i - 1] == s[i]);
            }
        }
    }
}

proof fn lemma_first_nul(s: Seq<u8>, i: int)
    requires
        0 <= i <= s.len(),
        forall|j: int| 0 <= j < i ==> s[j] != 0,
        i < s.len() ==> s[i] == 0,
    ensures
        text_end(s) == i,
{
    lemma_text_end(s);
}

/// Writes `v` at `off`, least significant byte first.
pub fn put_u16(ev: &mut [u8; UHID_EVENT_SIZE], off: usize, v: u16)
    requires
        off + 2 <= UHID_EVENT_SIZE,
    ensures
        final(ev)@ == splice(old(ev)@, off as int, le16(v)),
{
    ev[off] = (v % 256) as u8;
    ev[off + 1] = (v / 256) as u8;
}

/// Writes `v` at `off`, least significant byte first.
pub fn put_u32(ev: &mut [u8; UHID_EVENT_SIZE], off: usize, v: u32)
    requires
        off + 4 <= UHID_EVENT_SIZE,
    ensures
        final(ev)@ == splice(old(ev)@, off as int, le32(v)),
{
    ev[off] = (v % 256) as u8;
    ev[off + 1] = (v / 0x100 % 256) as u8;
    ev[off + 2] = (v / 0x1_0000 % 256) as u8;
    ev[off + 3] = (v / 0x100_0000) as u8;
}

/// Writes `v` at `off`, least significant byte first.
pub fn put_u64(ev: &mut [u8; UHID_EVENT_SIZE], off: usize, v: u64)
    requires
        off + 8 <= UHID_EVENT_SIZE,
    ensures
        final(ev)@ == splice(old(ev)@, off as int, le64(v)),
{
    put_u32(ev, off, (v % 0x1_0000_0000) as u32);
    put_u32(ev, off + 4, (v / 0x1_0000_0000) as u32);
}

/// Writes `data` at `off`.
pub fn put_bytes(ev: &mut [u8; UHID_EVENT_SIZE], off: usize, data: &[u8])
    requires
        off + data@.len() <= UHID_EVENT_SIZE,
    ensures
        final(ev)@ == splice(old(ev)@, off as int, data@),
{
    let mut i: usize = 0;
    while i < data.len()
        invariant
            i <= data@.len(),
            off + data@.len() <= UHID_EVENT_SIZE,
            ev@ == splice(old(ev)@, off as int, data@.take(i as int)),
        decreases data@.len() - i,
    {
        ev[off + i] = data[i];
        i += 1;
    }
    assert(data@.take(i as int) == data@);
}

/// Writes the text of `s` at `off`, cut to fit a field of `len` bytes with
/// its terminator. The terminator itself is left to the zeroed frame.
pub fn put_cstr(ev: &mut [u8; UHID_EVENT_SIZE], off: usize, len: usize, s: &[u8])
    requires
        len >= 1,
        off + c_text(s@, len as int).len() <= UHID_EVENT_SIZE,
    ensures
        final(ev)@ == splice(old(ev)@, off as int, c_text(s@, len as int)),
{
    let mut n: usize = 0;
    while n < s.len() && s[n] != 0
        invariant
            n <= s@.len(),
            forall|j: int| 0 <= j < n ==> s@[j] != 0,
        decreases s@.len() - n,
    {
        n += 1;
    }
    proof {
        lemma_first_nul(s@, n as int);
    }
    if n > len - 1 {
        n = len - 1;
    }
    put_bytes(ev, off, &s[0..n]);
}

/// Reads the 16-bit number at `off`.
pub fn get_u16(buf: &[u8], off: usize) -> (v: u16)
    requires
        off + 2 <= buf@.len(),
    ensures
        v == le16_at(buf@, off as int),
{
    buf[off] as u16 + 0x100 * buf[off + 1] as u16
}

/// Reads the 32-bit number at `off`.
pub fn get_u32(buf: &[u8], off: usize) -> (v: u32)
    requires
        off + 4 <= buf@.len(),
    ensures
        v == le32_at(buf@, off as int),
{
    buf[off] as u32 + 0x100 * buf[off + 1] as u32 + 0x1_0000 * buf[off + 2] as u32 + 0x100_0000
        * buf[off + 3] as u32
}

/// Reads the 64-bit number at `off`.
pub fn get_u64(buf: &[u8], off: usize) -> (v: u64)
    requires
        off + 8 <= buf@.len(),
    ensures
        v == le64_at(buf@, off as int),
{
    assert(off + 8 <= buf.len());
    get_u32(buf, off) as u64 + 0x1_0000_0000 * get_u32(buf, off + 4) as u64
}

/// Numbers are written least significant byte first: byte `k` of a number is
/// what is left of it after dividing `k` times by 256.
pub proof fn law_least_byte_first(a: u16, b: u32, c: u64)
    ensures
        le16(a).len() == 2 && le16(a)[0] == a % 256 && le16(a)[1] == a / 256,
        le32(b).len() == 4,
        le32(b)[0] == b % 256 && le32(b)[1] == b / 256 % 256,
        le32(b)[2] == b / 65536 % 256 && le32(b)[3] == b / 16777216,
        le64(c).len() == 8,
        le64(c)[0] == c % 256 && le64(c)[7] == c / 0x100_0000_0000_0000,
        le64(c).take(4) == le32((c % 0x1_0000_0000) as u32),
        le64(c).skip(4) == le32((c / 0x1_0000_0000) as u32),
{
    let low = (c % 0x1_0000_0000) as u32;
    let high = (c / 0x1_0000_0000) as u32;
    assert(le64(c).take(4) =~= le32(low));
    assert(le64(c).skip(4) =~= le32(high));
    assert(le64(c)[0] == le32(low)[0] && le64(c)[7] == le32(high)[3]);
    assert(low % 256 == c % 256);
    assert(high / 0x100_0000 == c / 0x100_0000_0000_0000);
}

/// A C string field holds each byte of the text up to the first zero byte and
/// up to the last byte but one of the field, and zeros behind them.
pub proof fn law_c_field_bytes(s: Seq<u8>, len: nat, i: int)
    requires
        0 <= i < len,
    ensures
        c_field(s, len).len() == len,
        i < s.len() && i < len - 1 && (forall|j: int| 0 <= j <= i ==> s[j] != 0) ==> c_field(
            s,
            len,
        )[i] == s[i],
        i >= s.len() || i >= len - 1 || (exists|j: int| 0 <= j <= i && s[j] == 0) ==> c_field(
            s,
            len,
        )[i] == 0,
{
    lemma_text_end(s);
}

} // verus!
