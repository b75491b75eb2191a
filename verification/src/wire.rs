//! Byte-level primitives of the envelope wire format.
//!
//! Integers are little-endian and fixed width; a byte string is its length
//! as a 64-bit integer followed by its bytes; a boolean is one byte, 0 or 1.

use vstd::prelude::*;

verus! {

/// The little-endian bytes of a 32-bit integer.
pub open spec fn spec_enc_u32(v: u32) -> Seq<u8> {
    seq![
        (v & 0xFF) as u8,
        ((v >> 8) & 0xFF) as u8,
        ((v >> 16) & 0xFF) as u8,
        ((v >> 24) & 0xFF) as u8,
    ]
}

/// The little-endian bytes of a 64-bit integer.
pub open spec fn spec_enc_u64(v: u64) -> Seq<u8> {
    seq![
        (v & 0xFF) as u8,
        ((v >> 8) & 0xFF) as u8,
        ((v >> 16) & 0xFF) as u8,
        ((v >> 24) & 0xFF) as u8,
        ((v >> 32) & 0xFF) as u8,
        ((v >> 40) & 0xFF) as u8,
        ((v >> 48) & 0xFF) as u8,
        ((v >> 56) & 0xFF) as u8,
    ]
}

/// One byte, 1 for true and 0 for false.
pub open spec fn spec_enc_bool(b: bool) -> Seq<u8> {
    if b {
        seq![1u8]
    } else {
        seq![0u8]
    }
}

/// A length-prefixed byte string.
pub open spec fn spec_enc_bytes(b: Seq<u8>) -> Seq<u8> {
    spec_enc_u64(b.len() as u64) + b
}

/// Relates an executable parse result to its specification: the same
/// outcome, with the cursor read as an integer.
pub open spec fn parses_to<T>(r: Option<(T, usize)>, s: Option<(T, int)>) -> bool {
    match r {
        Some((v, p)) => s == Some((v, p as int)),
        None => s is None,
    }
}

/// The 32-bit integer starting at `pos`, if four bytes are available.
pub open spec fn spec_read_u32(s: Seq<u8>, pos: int) -> Option<(u32, int)> {
    if 0 <= pos && pos + 4 <= s.len() {
        Some(
            (
                (s[pos] as u32) | ((s[pos + 1] as u32) << 8) | ((s[pos + 2] as u32) << 16) | ((s[
                    pos + 3] as u32) << 24),
                pos + 4,
            ),
        )
    } else {
        None
    }
}

/// The 64-bit integer starting at `pos`, if eight bytes are available.
pub open spec fn spec_read_u64(s: Seq<u8>, pos: int) -> Option<(u64, int)> {
    if 0 <= pos && pos + 8 <= s.len() {
        Some(
            (
                (s[pos] as u64) | ((s[pos + 1] as u64) << 8) | ((s[pos + 2] as u64) << 16) | ((s[
                    pos + 3] as u64) << 24) | ((s[pos + 4] as u64) << 32) | ((s[pos + 5] as u64)
                    << 40) | ((s[pos + 6] as u64) << 48) | ((s[pos + 7] as u64) << 56),
                pos + 8,
            ),
        )
    } else {
        None
    }
}

/// The boolean at `pos`: 1 is true, 0 is false, any other byte is malformed.
pub open spec fn spec_read_bool(s: Seq<u8>, pos: int) -> Option<(bool, int)> {
    if 0 <= pos && pos + 1 <= s.len() {
        if s[pos] == 1u8 {
            Some((true, pos + 1))
        } else if s[pos] == 0u8 {
            Some((false, pos + 1))
        } else {
            None
        }
    } else {
        None
    }
}

/// The byte at `pos`, used for variant tags.
pub open spec fn spec_read_u8(s: Seq<u8>, pos: int) -> Option<(u8, int)> {
    if 0 <= pos && pos + 1 <= s.len() {
        Some((s[pos], pos + 1))
    } else {
        None
    }
}

/// The length-prefixed byte string starting at `pos`.
pub open spec fn spec_read_bytes(s: Seq<u8>, pos: int) -> Option<(Seq<u8>, int)> {
    match spec_read_u64(s, pos) {
        Some((n, p)) => if p + n <= s.len() {
            Some((s.subrange(p, p + n), p + n))
        } else {
            None
        },
        None => None,
    }
}

/// Appends the little-endian bytes of `v`.
pub fn write_u32(out: &mut Vec<u8>, v: u32)
    ensures
        final(out)@ == old(out)@ + spec_enc_u32(v),
{
    out.push((v & 0xFF) as u8);
    out.push(((v >> 8) & 0xFF) as u8);
    out.push(((v >> 16) & 0xFF) as u8);
    out.push(((v >> 24) & 0xFF) as u8);
    proof {
        assert(out@ =~= old(out)@ + spec_enc_u32(v));
    }
}

/// Appends the little-endian bytes of `v`.
pub fn write_u64(out: &mut Vec<u8>, v: u64)
    ensures
        final(out)@ == old(out)@ + spec_enc_u64(v),
{
    out.push((v & 0xFF) as u8);
    out.push(((v >> 8) & 0xFF) as u8);
    out.push(((v >> 16) & 0xFF) as u8);
    out.push(((v >> 24) & 0xFF) as u8);
    out.push(((v >> 32) & 0xFF) as u8);
    out.push(((v >> 40) & 0xFF) as u8);
    out.push(((v >> 48) & 0xFF) as u8);
    out.push(((v >> 56) & 0xFF) as u8);
    proof {
        assert(out@ =~= old(out)@ + spec_enc_u64(v));
    }
}

/// Appends a boolean as one byte.
pub fn write_bool(out: &mut Vec<u8>, b: bool)
    ensures
        final(out)@ == old(out)@ + spec_enc_bool(b),
{
    out.push(if b {
        1u8
    } else {
        0u8
    });
    proof {
        assert(out@ =~= old(out)@ + spec_enc_bool(b));
    }
}

/// Appends a single tag byte.
pub fn write_u8(out: &mut Vec<u8>, b: u8)
    ensures
        final(out)@ == old(out)@ + seq![b],
{
    out.push(b);
    proof {
        assert(out@ =~= old(out)@ + seq![b]);
    }
}

/// Appends a length-prefixed byte string.
pub fn write_bytes(out: &mut Vec<u8>, b: &Vec<u8>)
    ensures
        final(out)@ == old(out)@ + spec_enc_bytes(b@),
{
    write_u64(out, b.len() as u64);
    let mut i: usize = 0;
    while i < b.len()
        invariant
            i <= b.len(),
            out@ == old(out)@ + spec_enc_u64(b@.len() as u64) + b@.take(i as int),
        decreases b.len() - i,
    {
        out.push(b[i]);
        proof {
            assert(b@.take(i + 1) =~= b@.take(i as int) + seq![b@[i as int]]);
            assert(out@ =~= old(out)@ + spec_enc_u64(b@.len() as u64) + b@.take(i + 1));
        }
        i = i + 1;
    }
    proof {
        assert(b@.take(b@.len() as int) =~= b@);
        assert(out@ =~= old(out)@ + spec_enc_bytes(b@));
    }
}

/// Reads the 32-bit integer at `pos`.
pub fn read_u32(s: &[u8], pos: usize) -> (r: Option<(u32, usize)>)
    ensures
        parses_to(r, spec_read_u32(s@, pos as int)),
{
    if s.len() >= 4 && pos <= s.len() - 4 {
        let v = (s[pos] as u32) | ((s[pos + 1] as u32) << 8) | ((s[pos + 2] as u32) << 16) | ((
        s[pos + 3] as u32) << 24);
        Some((v, pos + 4))
    } else {
        None
    }
}

/// Reads the 64-bit integer at `pos`.
pub fn read_u64(s: &[u8], pos: usize) -> (r: Option<(u64, usize)>)
    ensures
        parses_to(r, spec_read_u64(s@, pos as int)),
{
    if s.len() >= 8 && pos <= s.len() - 8 {
        let v = (s[pos] as u64) | ((s[pos + 1] as u64) << 8) | ((s[pos + 2] as u64) << 16) | ((
        s[pos + 3] as u64) << 24) | ((s[pos + 4] as u64) << 32) | ((s[pos + 5] as u64) << 40) | ((
        s[pos + 6] as u64) << 48) | ((s[pos + 7] as u64) << 56);
        Some((v, pos + 8))
    } else {
        None
    }
}

/// Reads the boolean at `pos`.
pub fn read_bool(s: &[u8], pos: usize) -> (r: Option<(bool, usize)>)
    ensures
        parses_to(r, spec_read_bool(s@, pos as int)),
{
    if pos < s.len() {
        if s[pos] == 1 {
            Some((true, pos + 1))
        } else if s[pos] == 0 {
            Some((false, pos + 1))
        } else {
            None
        }
    } else {
        None
    }
}

/// Reads the tag byte at `pos`.
pub fn read_u8(s: &[u8], pos: usize) -> (r: Option<(u8, usize)>)
    ensures
        parses_to(r, spec_read_u8(s@, pos as int)),
{
    if pos < s.len() {
        Some((s[pos], pos + 1))
    } else {
        None
    }
}

/// Reads the length-prefixed byte string at `pos`.
pub fn read_bytes(s: &[u8], pos: usize) -> (r: Option<(Vec<u8>, usize)>)
    ensures
        ({
            match r {
                Some((v, p)) => spec_read_bytes(s@, pos as int) == Some((v@, p as int)),
                None => spec_read_bytes(s@, pos as int) is None,
            }
        }),
{
    match read_u64(s, pos) {
        Some((n, p)) => {
            if n <= (s.len() - p) as u64 {
                let end = p + (n as usize);
                let out = vstd::slice::slice_to_vec(vstd::slice::slice_subrange(s, p, end));
                Some((out, end))
            } else {
                None
            }
        },
        None => None,
    }
}

/// Pushing onto a vector appends the element's view to the deep view.
pub proof fn lemma_deep_view_push<T: DeepView>(pre: Vec<T>, post: Vec<T>, x: T)
    requires
        post@ == pre@.push(x),
    ensures
        post.deep_view() == pre.deep_view().push(x.deep_view()),
{
    assert forall|j: int| 0 <= j < post.deep_view().len() implies post.deep_view()[j]
        == pre.deep_view().push(x.deep_view())[j] by {
        if j < pre@.len() {
            assert(post@[j] == pre@[j]);
        } else {
            assert(post@[j] == x);
        }
    }
    assert(post.deep_view() =~= pre.deep_view().push(x.deep_view()));
}

} // verus!
