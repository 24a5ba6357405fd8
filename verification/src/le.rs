//! Little-endian integers in byte strings.

use vstd::bytes::{
    lemma_auto_spec_u32_to_from_le_bytes, lemma_auto_spec_u64_to_from_le_bytes,
    spec_u32_from_le_bytes, spec_u32_to_le_bytes, spec_u64_from_le_bytes, spec_u64_to_le_bytes,
};
use vstd::prelude::*;
use vstd::string::StringExecFns;
use byteorder::{LittleEndian, ReadBytesExt, WriteBytesExt};

use crate::slices::copy_bytes;
use crate::types::{Ds4Error, Ds4ErrorKind, Ds4Result};

verus! {

/// The error of a byte stream.
#[verifier::external_type_specification]
#[verifier::external_body]
pub struct ExIoError(std::io::Error);

/// The four bytes of `v`, lowest first.
pub open spec fn le32(v: u32) -> Seq<u8> {
    spec_u32_to_le_bytes(v)
}

/// The eight bytes of `v`, lowest first.
pub open spec fn le64(v: u64) -> Seq<u8> {
    spec_u64_to_le_bytes(v)
}

/// The integer whose four bytes, lowest first, stand at `p`.
pub open spec fn u32_at(s: Seq<u8>, p: int) -> u32 {
    spec_u32_from_le_bytes(s.subrange(p, p + 4))
}

/// The integer whose eight bytes, lowest first, stand at `p`.
pub open spec fn u64_at(s: Seq<u8>, p: int) -> u64 {
    spec_u64_from_le_bytes(s.subrange(p, p + 8))
}

/// The words of `s` one after the other, each as four bytes.
pub open spec fn le_words(s: Seq<u32>) -> Seq<u8>
    decreases s.len(),
{
    if s.len() == 0 {
        Seq::empty()
    } else {
        le_words(s.drop_last()) + le32(s.last())
    }
}

/// The sizes of `s` one after the other, each as eight bytes.
pub open spec fn le_sizes(s: Seq<usize>) -> Seq<u8>
    decreases s.len(),
{
    if s.len() == 0 {
        Seq::empty()
    } else {
        le_sizes(s.drop_last()) + le64(s.last() as u64)
    }
}

/// The words that stand one after the other from the start of `s`; bytes that do not fill a
/// word are left out.
pub open spec fn words_of(s: Seq<u8>) -> Seq<u32> {
    Seq::new(s.len() / 4, |i: int| u32_at(s, 4 * i))
}

/// A word takes four bytes, and reading them gives it back.
pub proof fn lemma_le32(v: u32)
    ensures
        le32(v).len() == 4,
        spec_u32_from_le_bytes(le32(v)) == v,
{
    lemma_auto_spec_u32_to_from_le_bytes();
    assert(spec_u32_to_le_bytes(v).len() == 4);
}

/// A long word takes eight bytes, and reading them gives it back.
pub proof fn lemma_le64(v: u64)
    ensures
        le64(v).len() == 8,
        spec_u64_from_le_bytes(le64(v)) == v,
{
    lemma_auto_spec_u64_to_from_le_bytes();
}

/// A word written at `p` is the word read at `p`.
pub proof fn lemma_u32_at(s: Seq<u8>, p: int, v: u32)
    requires
        0 <= p,
        p + 4 <= s.len(),
        s.subrange(p, p + 4) == le32(v),
    ensures
        u32_at(s, p) == v,
{
    lemma_le32(v);
}

/// A long word written at `p` is the long word read at `p`.
pub proof fn lemma_u64_at(s: Seq<u8>, p: int, v: u64)
    requires
        0 <= p,
        p + 8 <= s.len(),
        s.subrange(p, p + 8) == le64(v),
    ensures
        u64_at(s, p) == v,
{
    lemma_le64(v);
}

/// Word `i` of a packed sequence stands at byte `4 * i`.
pub proof fn lemma_le_words(s: Seq<u32>)
    ensures
        le_words(s).len() == 4 * s.len(),
        forall|i: int|
            0 <= i < s.len() ==> #[trigger] le_words(s).subrange(4 * i, 4 * i + 4) == le32(s[i]),
    decreases s.len(),
{
    if s.len() > 0 {
        let init = s.drop_last();
        lemma_le_words(init);
        lemma_le32(s.last());
        assert forall|i: int| 0 <= i < s.len() implies #[trigger] le_words(s).subrange(
            4 * i,
            4 * i + 4,
        ) == le32(s[i]) by {
            if i < init.len() {
                assert(le_words(s).subrange(4 * i, 4 * i + 4) =~= le_words(init).subrange(
                    4 * i,
                    4 * i + 4,
                ));
            } else {
                assert(le_words(s).subrange(4 * i, 4 * i + 4) =~= le32(s.last()));
            }
        }
    }
}

/// Size `i` of a packed sequence stands at byte `8 * i`.
pub proof fn lemma_le_sizes(s: Seq<usize>)
    ensures
        le_sizes(s).len() == 8 * s.len(),
        forall|i: int|
            0 <= i < s.len() ==> #[trigger] le_sizes(s).subrange(8 * i, 8 * i + 8) == le64(
                s[i] as u64,
            ),
    decreases s.len(),
{
    if s.len() > 0 {
        let init = s.drop_last();
        lemma_le_sizes(init);
        lemma_le64(s.last() as u64);
        assert forall|i: int| 0 <= i < s.len() implies #[trigger] le_sizes(s).subrange(
            8 * i,
            8 * i + 8,
        ) == le64(s[i] as u64) by {
            if i < init.len() {
                assert(le_sizes(s).subrange(8 * i, 8 * i + 8) =~= le_sizes(init).subrange(
                    8 * i,
                    8 * i + 8,
                ));
            } else {
                assert(le_sizes(s).subrange(8 * i, 8 * i + 8) =~= le64(s.last() as u64));
            }
        }
    }
}

/// Unpacking packed words gives them back.
pub proof fn lemma_words_roundtrip(s: Seq<u32>)
    ensures
        words_of(le_words(s)) == s,
{
    lemma_le_words(s);
    let b = le_words(s);
    assert forall|i: int| 0 <= i < s.len() implies words_of(b)[i] == s[i] by {
        assert(b.subrange(4 * i, 4 * i + 4) == le32(s[i]));
        lemma_u32_at(b, 4 * i, s[i]);
    }
    assert(words_of(b) =~= s);
}

/// Appends one byte. `WriteBytesExt::write_u8` on a vector writes exactly the byte and cannot
/// fail.
#[verifier::external_body]
pub(crate) fn put_u8(buf: &mut Vec<u8>, v: u8)
    ensures
        final(buf)@ == old(buf)@.push(v),
{
    buf.write_u8(v).unwrap();
}

/// Appends four bytes. `WriteBytesExt::write_u32::<LittleEndian>` on a vector writes the bytes
/// of the value, lowest first, and cannot fail.
#[verifier::external_body]
pub(crate) fn put_u32(buf: &mut Vec<u8>, v: u32)
    ensures
        final(buf)@ == old(buf)@ + le32(v),
{
    buf.write_u32::<LittleEndian>(v).unwrap();
}

/// Appends eight bytes. `WriteBytesExt::write_u64::<LittleEndian>` on a vector writes the bytes
/// of the value, lowest first, and cannot fail.
#[verifier::external_body]
pub(crate) fn put_u64(buf: &mut Vec<u8>, v: u64)
    ensures
        final(buf)@ == old(buf)@ + le64(v),
{
    buf.write_u64::<LittleEndian>(v).unwrap();
}

/// Reads the byte at `pos`. `ReadBytesExt::read_u8` on a cursor gives the next byte, and fails
/// exactly when none is left.
#[verifier::external_body]
fn get_u8(bytes: &[u8], pos: usize) -> (r: Result<u8, std::io::Error>)
    ensures
        match r {
            Ok(v) => pos < bytes@.len() && v == bytes@[pos as int],
            Err(_) => pos >= bytes@.len(),
        },
{
    let mut cur = std::io::Cursor::new(bytes);
    cur.set_position(pos as u64);
    cur.read_u8()
}

/// Reads four bytes at `pos`. `ReadBytesExt::read_u32::<LittleEndian>` on a cursor takes the
/// next four bytes, lowest first, and fails exactly when fewer are left.
#[verifier::external_body]
fn get_u32(bytes: &[u8], pos: usize) -> (r: Result<u32, std::io::Error>)
    ensures
        match r {
            Ok(v) => pos + 4 <= bytes@.len() && v == u32_at(bytes@, pos as int),
            Err(_) => pos + 4 > bytes@.len(),
        },
{
    let mut cur = std::io::Cursor::new(bytes);
    cur.set_position(pos as u64);
    cur.read_u32::<LittleEndian>()
}

/// Reads eight bytes at `pos`. `ReadBytesExt::read_u64::<LittleEndian>` on a cursor takes the
/// next eight bytes, lowest first, and fails exactly when fewer are left.
#[verifier::external_body]
fn get_u64(bytes: &[u8], pos: usize) -> (r: Result<u64, std::io::Error>)
    ensures
        match r {
            Ok(v) => pos + 8 <= bytes@.len() && v == u64_at(bytes@, pos as int),
            Err(_) => pos + 8 > bytes@.len(),
        },
{
    let mut cur = std::io::Cursor::new(bytes);
    cur.set_position(pos as u64);
    cur.read_u64::<LittleEndian>()
}

/// The text of a stream error, as its `Display` gives it. Nothing is said of the text.
#[verifier::external_body]
pub(crate) fn io_text(e: &std::io::Error) -> String {
    e.to_string()
}

/// The error stands for a failed read.
pub open spec fn is_io_error(e: Ds4Error) -> bool {
    e.kind == Ds4ErrorKind::Io && "io: "@.is_prefix_of(e.message@)
}

/// Turns a stream error into an engine error.
pub fn io_err(e: std::io::Error) -> (r: Ds4Error)
    ensures
        is_io_error(r),
{
    let mut message: String = String::from_str("io: ");
    message.append(io_text(&e).as_str());
    Ds4Error::new(Ds4ErrorKind::Io, message)
}

/// Reads integers and byte runs from a byte string, front to back.
pub struct ByteReader<'a> {
    pub bytes: &'a [u8],
    pub pos: usize,
}

impl<'a> ByteReader<'a> {
    /// The reader has not passed the end.
    pub open spec fn wf(self) -> bool {
        self.pos <= self.bytes@.len()
    }

    /// Starts at the first byte.
    pub fn new(bytes: &'a [u8]) -> (r: Self)
        ensures
            r.wf(),
            r.bytes@ == bytes@,
            r.pos == 0,
    {
        ByteReader { bytes, pos: 0 }
    }

    /// Takes one byte.
    pub fn next_u8(&mut self) -> (r: Result<u8, std::io::Error>)
        requires
            old(self).wf(),
        ensures
            final(self).wf(),
            final(self).bytes == old(self).bytes,
            match r {
                Ok(v) => {
                    &&& old(self).pos + 1 <= old(self).bytes@.len()
                    &&& v == old(self).bytes@[old(self).pos as int]
                    &&& final(self).pos == old(self).pos + 1
                },
                Err(_) => old(self).pos + 1 > old(self).bytes@.len() && final(self).pos == old(
                    self,
                ).pos,
            },
    {
        let v: u8 = match get_u8(self.bytes, self.pos) {
            Ok(v) => v,
            Err(e) => return Err(e),
        };
        assert(self.bytes@.len() == self.bytes.len());
        self.pos = self.pos + 1;
        Ok(v)
    }

    /// Takes a word.
    pub fn next_u32(&mut self) -> (r: Result<u32, std::io::Error>)
        requires
            old(self).wf(),
        ensures
            final(self).wf(),
            final(self).bytes == old(self).bytes,
            match r {
                Ok(v) => {
                    &&& old(self).pos + 4 <= old(self).bytes@.len()
                    &&& v == u32_at(old(self).bytes@, old(self).pos as int)
                    &&& final(self).pos == old(self).pos + 4
                },
                Err(_) => old(self).pos + 4 > old(self).bytes@.len() && final(self).pos == old(
                    self,
                ).pos,
            },
    {
        let v: u32 = match get_u32(self.bytes, self.pos) {
            Ok(v) => v,
            Err(e) => return Err(e),
        };
        assert(self.bytes@.len() == self.bytes.len());
        self.pos = self.pos + 4;
        Ok(v)
    }

    /// Takes a byte, or reports the missing one as an engine error.
    pub fn read_u8(&mut self) -> (r: Ds4Result<u8>)
        requires
            old(self).wf(),
        ensures
            final(self).wf(),
            final(self).bytes == old(self).bytes,
            match r {
                Ok(v) => {
                    &&& old(self).pos + 1 <= old(self).bytes@.len()
                    &&& v == old(self).bytes@[old(self).pos as int]
                    &&& final(self).pos == old(self).pos + 1
                },
                Err(e) => old(self).pos + 1 > old(self).bytes@.len() && is_io_error(e),
            },
    {
        match self.next_u8() {
            Ok(v) => Ok(v),
            Err(e) => Err(io_err(e)),
        }
    }

    /// Takes a word, or reports the missing bytes as an engine error.
    pub fn read_u32(&mut self) -> (r: Ds4Result<u32>)
        requires
            old(self).wf(),
        ensures
            final(self).wf(),
            final(self).bytes == old(self).bytes,
            match r {
                Ok(v) => {
                    &&& old(self).pos + 4 <= old(self).bytes@.len()
                    &&& v == u32_at(old(self).bytes@, old(self).pos as int)
                    &&& final(self).pos == old(self).pos + 4
                },
                Err(e) => old(self).pos + 4 > old(self).bytes@.len() && is_io_error(e),
            },
    {
        match self.next_u32() {
            Ok(v) => Ok(v),
            Err(e) => Err(io_err(e)),
        }
    }

    /// Takes a long word, or reports the missing bytes as an engine error.
    pub fn read_u64(&mut self) -> (r: Ds4Result<u64>)
        requires
            old(self).wf(),
        ensures
            final(self).wf(),
            final(self).bytes == old(self).bytes,
            match r {
                Ok(v) => {
                    &&& old(self).pos + 8 <= old(self).bytes@.len()
                    &&& v == u64_at(old(self).bytes@, old(self).pos as int)
                    &&& final(self).pos == old(self).pos + 8
                },
                Err(e) => old(self).pos + 8 > old(self).bytes@.len() && is_io_error(e),
            },
    {
        let v: u64 = match get_u64(self.bytes, self.pos) {
            Ok(v) => v,
            Err(e) => return Err(io_err(e)),
        };
        assert(self.bytes@.len() == self.bytes.len());
        self.pos = self.pos + 8;
        Ok(v)
    }

    /// Takes `n` bytes.
    pub fn next_bytes(&mut self, n: usize) -> (r: Result<Vec<u8>, std::io::Error>)
        requires
            old(self).wf(),
        ensures
            final(self).wf(),
            final(self).bytes == old(self).bytes,
            match r {
                Ok(v) => {
                    &&& old(self).pos + n <= old(self).bytes@.len()
                    &&& v@ == old(self).bytes@.subrange(old(self).pos as int, old(self).pos + n)
                    &&& final(self).pos == old(self).pos + n
                },
                Err(_) => old(self).pos + n > old(self).bytes@.len() && final(self).pos == old(
                    self,
                ).pos,
            },
    {
        if n > self.bytes.len() - self.pos {
            // The failure of a read at the end stands for the missing bytes.
            if let Err(e) = get_u8(self.bytes, self.bytes.len()) {
                return Err(e);
            }
        }
        let v: Vec<u8> = copy_bytes(self.bytes, self.pos, self.pos + n);
        self.pos = self.pos + n;
        Ok(v)
    }

    /// Takes `n` bytes, or reports the missing ones as an engine error.
    pub fn read_bytes(&mut self, n: usize) -> (r: Ds4Result<Vec<u8>>)
        requires
            old(self).wf(),
        ensures
            final(self).wf(),
            final(self).bytes == old(self).bytes,
            match r {
                Ok(v) => {
                    &&& old(self).pos + n <= old(self).bytes@.len()
                    &&& v@ == old(self).bytes@.subrange(old(self).pos as int, old(self).pos + n)
                    &&& final(self).pos == old(self).pos + n
                },
                Err(e) => old(self).pos + n > old(self).bytes@.len() && is_io_error(e),
            },
    {
        match self.next_bytes(n) {
            Ok(v) => Ok(v),
            Err(e) => Err(io_err(e)),
        }
    }
}

/// Appends words, each as four bytes.
pub fn put_words(buf: &mut Vec<u8>, words: &[u32])
    ensures
        final(buf)@ == old(buf)@ + le_words(words@),
{
    let ghost before = buf@;
    let mut i: usize = 0;
    while i < words.len()
        invariant
            i <= words@.len(),
            buf@ == before + le_words(words@.take(i as int)),
        decreases words@.len() - i,
    {
        put_u32(buf, words[i]);
        proof {
            let next = words@.take(i + 1);
            assert(next.drop_last() =~= words@.take(i as int));
            assert(buf@ =~= before + le_words(next));
        }
        i += 1;
    }
    assert(words@.take(i as int) =~= words@);
}

/// Appends sizes, each as eight bytes.
pub fn put_sizes(buf: &mut Vec<u8>, sizes: &[usize])
    ensures
        final(buf)@ == old(buf)@ + le_sizes(sizes@),
{
    let ghost before = buf@;
    let mut i: usize = 0;
    while i < sizes.len()
        invariant
            i <= sizes@.len(),
            buf@ == before + le_sizes(sizes@.take(i as int)),
        decreases sizes@.len() - i,
    {
        put_u64(buf, sizes[i] as u64);
        proof {
            let next = sizes@.take(i + 1);
            assert(next.drop_last() =~= sizes@.take(i as int));
            assert(buf@ =~= before + le_sizes(next));
        }
        i += 1;
    }
    assert(sizes@.take(i as int) =~= sizes@);
}

/// Appends bytes.
pub fn put_bytes(buf: &mut Vec<u8>, bytes: &[u8])
    ensures
        final(buf)@ == old(buf)@ + bytes@,
{
    let ghost before = buf@;
    let mut i: usize = 0;
    while i < bytes.len()
        invariant
            i <= bytes@.len(),
            buf@ == before + bytes@.take(i as int),
        decreases bytes@.len() - i,
    {
        buf.push(bytes[i]);
        i += 1;
        assert(buf@ =~= before + bytes@.take(i as int));
    }
    assert(bytes@.take(i as int) =~= bytes@);
}

/// The whole words that stand one after the other from the start of `bytes`.
pub fn unpack_words(bytes: &[u8]) -> (r: Vec<u32>)
    ensures
        r@ == words_of(bytes@),
{
    let mut out: Vec<u32> = Vec::new();
    let mut i: usize = 0;
    while bytes.len() - i >= 4
        invariant
            i <= bytes@.len(),
            i == 4 * out@.len(),
            forall|j: int| 0 <= j < out@.len() ==> out@[j] == u32_at(bytes@, 4 * j),
        decreases bytes@.len() - i,
    {
        let v: u32 = match get_u32(bytes, i) {
            Ok(v) => v,
            Err(_) => 0,
        };
        out.push(v);
        i += 4;
    }
    assert(out@ =~= words_of(bytes@));
    out
}

} // verus!
