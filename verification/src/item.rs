//! Item records: the on-disk form of one key/value pair.
//!
//! A record is a 32-byte header — signature, key length, value
//! length, check word — followed by the key bytes and the value
//! bytes, written contiguously inside one strand.

use vstd::prelude::*;

use vstd::bytes::{
    lemma_auto_spec_u64_to_from_le_bytes, spec_u64_from_le_bytes, spec_u64_to_le_bytes,
    u64_to_le_bytes,
};
use vstd::slice::{slice_subrange, slice_to_vec};
use crate::device::Memory;
use crate::error::Error;
use crate::io::StrandReader;
use crate::serial::{copy_bytes_at, get_u64, lemma_subrange_of_subrange};
use crate::strand::Strand;
use crate::FilePointer;

verus! {

/// Signature starting every item record.
pub const ITEM_MAGIC: u64 = 0x7a3b91c44d28e6f1;

/// The header of a record holding a key of `klen` bytes and a value
/// of `vlen` bytes.
pub open spec fn item_header_bytes(klen: u64, vlen: u64) -> Seq<u8> {
    spec_u64_to_le_bytes(ITEM_MAGIC) + spec_u64_to_le_bytes(klen) + spec_u64_to_le_bytes(vlen)
        + spec_u64_to_le_bytes((ITEM_MAGIC ^ klen) ^ vlen)
}

/// The full record serialising `(key, val)`.
pub open spec fn item_bytes(key: Seq<u8>, val: Seq<u8>) -> Seq<u8> {
    item_header_bytes(key.len() as u64, val.len() as u64) + key + val
}

/// The key length recorded in the header at `p`.
pub open spec fn spec_item_klen(dev: Seq<u8>, p: int) -> u64 {
    spec_u64_from_le_bytes(dev.subrange(p + 8, p + 16))
}

/// The value length recorded in the header at `p`.
pub open spec fn spec_item_vlen(dev: Seq<u8>, p: int) -> u64 {
    spec_u64_from_le_bytes(dev.subrange(p + 16, p + 24))
}

/// Where the record starting at `p` ends, according to its header.
pub open spec fn spec_item_end(dev: Seq<u8>, p: int) -> int {
    p + 32 + spec_item_klen(dev, p) + spec_item_vlen(dev, p)
}

/// Whether a well-formed record header sits at `p`.
pub open spec fn spec_item_header_ok(dev: Seq<u8>, p: int) -> bool {
    &&& 0 <= p
    &&& p + 32 <= dev.len()
    &&& spec_u64_from_le_bytes(dev.subrange(p, p + 8)) == ITEM_MAGIC
    &&& spec_u64_from_le_bytes(dev.subrange(p + 24, p + 32)) == (ITEM_MAGIC ^ spec_item_klen(
        dev,
        p,
    )) ^ spec_item_vlen(dev, p)
}

/// The key/value pair recorded at `p`, when a whole well-formed
/// record sits there.
pub open spec fn spec_item_at(dev: Seq<u8>, p: int) -> Option<(Seq<u8>, Seq<u8>)> {
    if spec_item_header_ok(dev, p) && spec_item_end(dev, p) <= dev.len() {
        Some(
            (
                dev.subrange(p + 32, p + 32 + spec_item_klen(dev, p)),
                dev.subrange(p + 32 + spec_item_klen(dev, p), spec_item_end(dev, p)),
            ),
        )
    } else {
        None
    }
}

/// Serialises one record.
pub fn encode_item(key: &[u8], val: &[u8]) -> (r: Vec<u8>)
    requires
        32 + key@.len() + val@.len() <= usize::MAX,
    ensures
        r@ == item_bytes(key@, val@),
        r@.len() == 32 + key@.len() + val@.len(),
{
    proof {
        lemma_auto_spec_u64_to_from_le_bytes();
    }
    let klen: u64 = key.len() as u64;
    let vlen: u64 = val.len() as u64;
    let mut out: Vec<u8> = u64_to_le_bytes(ITEM_MAGIC);
    let mut piece: Vec<u8> = u64_to_le_bytes(klen);
    out.append(&mut piece);
    let mut piece2: Vec<u8> = u64_to_le_bytes(vlen);
    out.append(&mut piece2);
    let mut piece3: Vec<u8> = u64_to_le_bytes((ITEM_MAGIC ^ klen) ^ vlen);
    out.append(&mut piece3);
    let mut kb: Vec<u8> = slice_to_vec(key);
    out.append(&mut kb);
    let mut vb: Vec<u8> = slice_to_vec(val);
    out.append(&mut vb);
    proof {
        assert(out@ =~= item_bytes(key@, val@));
    }
    out
}

/// A record whose bytes equal `item_bytes(key, val)` reads back as
/// `(key, val)`.
pub proof fn lemma_item_at_of_bytes(dev: Seq<u8>, p: int, key: Seq<u8>, val: Seq<u8>)
    requires
        0 <= p,
        p + 32 + key.len() + val.len() <= dev.len(),
        dev.len() <= u64::MAX,
        dev.subrange(p, p + 32 + key.len() + val.len()) == item_bytes(key, val),
    ensures
        spec_item_at(dev, p) == Some((key, val)),
        spec_item_klen(dev, p) == key.len(),
        spec_item_vlen(dev, p) == val.len(),
        spec_item_end(dev, p) == p + 32 + key.len() + val.len(),
{
    lemma_auto_spec_u64_to_from_le_bytes();
    let klen = key.len() as u64;
    let vlen = val.len() as u64;
    let rec = item_bytes(key, val);
    assert(rec.len() == 32 + key.len() + val.len());
    let end = p + 32 + key.len() + val.len();
    assert(dev.subrange(p, p + 8) =~= rec.subrange(0, 8));
    assert(rec.subrange(0, 8) =~= spec_u64_to_le_bytes(ITEM_MAGIC));
    assert(dev.subrange(p + 8, p + 16) =~= rec.subrange(8, 16));
    assert(rec.subrange(8, 16) =~= spec_u64_to_le_bytes(klen));
    assert(dev.subrange(p + 16, p + 24) =~= rec.subrange(16, 24));
    assert(rec.subrange(16, 24) =~= spec_u64_to_le_bytes(vlen));
    assert(dev.subrange(p + 24, p + 32) =~= rec.subrange(24, 32));
    assert(rec.subrange(24, 32) =~= spec_u64_to_le_bytes((ITEM_MAGIC ^ klen) ^ vlen));
    assert(spec_item_klen(dev, p) == klen);
    assert(spec_item_vlen(dev, p) == vlen);
    assert(spec_item_header_ok(dev, p));
    lemma_subrange_of_subrange(dev, p, end, 32, 32 + key.len() as int);
    lemma_subrange_of_subrange(dev, p, end, 32 + key.len() as int, end - p);
    assert(rec.subrange(32, 32 + key.len() as int) =~= key);
    assert(rec.subrange(32 + key.len() as int, end - p) =~= val);
    assert(dev.subrange(p + 32, p + 32 + key.len()) == key);
    assert(dev.subrange(p + 32 + key.len(), end) == val);
}

/// A record is read entirely from its own bytes: two device states
/// that agree on `[p, end)` record the same item there.
pub proof fn lemma_item_at_frame(dev1: Seq<u8>, dev2: Seq<u8>, p: int, end: int)
    requires
        dev1.len() == dev2.len(),
        0 <= p,
        p + 32 <= end <= dev1.len(),
        spec_item_header_ok(dev1, p),
        spec_item_end(dev1, p) <= end,
        forall|i: int| p <= i < end ==> dev1[i] == dev2[i],
    ensures
        spec_item_at(dev2, p) == spec_item_at(dev1, p),
        spec_item_klen(dev2, p) == spec_item_klen(dev1, p),
        spec_item_vlen(dev2, p) == spec_item_vlen(dev1, p),
{
    assert(dev2.subrange(p, p + 8) =~= dev1.subrange(p, p + 8));
    assert(dev2.subrange(p + 8, p + 16) =~= dev1.subrange(p + 8, p + 16));
    assert(dev2.subrange(p + 16, p + 24) =~= dev1.subrange(p + 16, p + 24));
    assert(dev2.subrange(p + 24, p + 32) =~= dev1.subrange(p + 24, p + 32));
    let klen = spec_item_klen(dev1, p);
    let vlen = spec_item_vlen(dev1, p);
    assert(dev2.subrange(p + 32, p + 32 + klen) =~= dev1.subrange(p + 32, p + 32 + klen));
    assert(dev2.subrange(p + 32 + klen, p + 32 + klen + vlen) =~= dev1.subrange(
        p + 32 + klen,
        p + 32 + klen + vlen,
    ));
}

/// One key/value pair, owned in memory.
#[derive(Debug, Clone)]
pub struct Item {
    /// The item's key.
    pub key: Vec<u8>,
    /// The item's value.
    pub value: Vec<u8>,
}

impl Item {
    /// The item's key.
    pub fn key(&self) -> (r: &Vec<u8>)
        ensures
            r@ == self.key@,
    {
        &self.key
    }

    /// The item's value.
    pub fn value(&self) -> (r: &Vec<u8>)
        ensures
            r@ == self.value@,
    {
        &self.value
    }
}

/// Copies as much of `slice` as fits into `buffer` and returns the
/// number of bytes copied.
pub fn copy_slice(slice: &[u8], buffer: &mut Vec<u8>) -> (n: usize)
    ensures
        n == (if slice@.len() < old(buffer)@.len() {
            slice@.len()
        } else {
            old(buffer)@.len()
        }),
        final(buffer)@ == old(buffer)@.update_subrange_with(0, slice@.take(n as int)),
        final(buffer)@.len() == old(buffer)@.len(),
{
    let n: usize = if slice.len() < buffer.len() {
        slice.len()
    } else {
        buffer.len()
    };
    let prefix: &[u8] = slice_subrange(slice, 0, n);
    proof {
        assert(prefix@ =~= slice@.take(n as int));
    }
    copy_bytes_at(buffer, 0, prefix);
    n
}

/// A decoded record handed to readers.
#[derive(Debug, Clone)]
pub struct ReadContext {
    /// The record's key bytes.
    pub key: Vec<u8>,
    /// The record's value bytes.
    pub val: Vec<u8>,
}

impl ReadContext {
    /// The record's key bytes.
    pub fn key(&self) -> (r: &Vec<u8>)
        ensures
            r@ == self.key@,
    {
        &self.key
    }

    /// The record's value bytes.
    pub fn val(&self) -> (r: &Vec<u8>)
        ensures
            r@ == self.val@,
    {
        &self.val
    }

    /// Copies as much of the key as fits into `buf`; returns the
    /// number of bytes copied.
    pub fn copy_key(&self, buf: &mut Vec<u8>) -> (n: usize)
        ensures
            n == (if self.key@.len() < old(buf)@.len() {
                self.key@.len()
            } else {
                old(buf)@.len()
            }),
            final(buf)@ == old(buf)@.update_subrange_with(0, self.key@.take(n as int)),
    {
        copy_slice(self.key.as_slice(), buf)
    }

    /// Copies as much of the value as fits into `buf`; returns the
    /// number of bytes copied.
    pub fn copy_val(&self, buf: &mut Vec<u8>) -> (n: usize)
        ensures
            n == (if self.val@.len() < old(buf)@.len() {
                self.val@.len()
            } else {
                old(buf)@.len()
            }),
            final(buf)@ == old(buf)@.update_subrange_with(0, self.val@.take(n as int)),
    {
        copy_slice(self.val.as_slice(), buf)
    }
}

/// Reads the record header at `ptr` and returns the recorded key and
/// value lengths.  Fails with [`Error::Corrupt`] exactly when no
/// well-formed header fits there.
pub fn read_item_header(strand: &mut Strand, dev: &Memory, ptr: FilePointer) -> (r: Result<
    (u64, u64),
    Error,
>)
    requires
        dev.wf(),
        old(strand).wf(dev.contents().len() as int),
        old(strand).start <= ptr <= old(strand).start + old(strand).capacity,
    ensures
        final(strand).spec_frame() == old(strand).spec_frame(),
        final(strand).wf(dev.contents().len() as int),
        match r {
            Ok(lens) => {
                &&& ptr + 32 <= old(strand).start + old(strand).capacity
                &&& spec_item_header_ok(dev.contents(), ptr as int)
                &&& lens.0 == spec_item_klen(dev.contents(), ptr as int)
                &&& lens.1 == spec_item_vlen(dev.contents(), ptr as int)
            },
            Err(e) => {
                &&& e is Corrupt
                &&& (ptr + 32 > old(strand).start + old(strand).capacity || !spec_item_header_ok(
                    dev.contents(),
                    ptr as int,
                ))
            },
        },
{
    proof {
        lemma_auto_spec_u64_to_from_le_bytes();
    }
    if strand.get_capacity() - (ptr - strand.get_start()) < 32 {
        return Err(Error::Corrupt);
    }
    let mut reader = StrandReader::new(strand, ptr);
    let hdr: Vec<u8> = match reader.read_exact(strand, dev, 32) {
        Ok(v) => v,
        Err(_) => {
            return Err(Error::Corrupt);
        },
    };
    let ghost p = ptr as int;
    proof {
        lemma_subrange_of_subrange(dev.contents(), p, p + 32, 0, 8);
        lemma_subrange_of_subrange(dev.contents(), p, p + 32, 8, 16);
        lemma_subrange_of_subrange(dev.contents(), p, p + 32, 16, 24);
        lemma_subrange_of_subrange(dev.contents(), p, p + 32, 24, 32);
    }
    let magic: u64 = get_u64(hdr.as_slice(), 0);
    let klen: u64 = get_u64(hdr.as_slice(), 8);
    let vlen: u64 = get_u64(hdr.as_slice(), 16);
    let check: u64 = get_u64(hdr.as_slice(), 24);
    if magic != ITEM_MAGIC || check != (ITEM_MAGIC ^ klen) ^ vlen {
        return Err(Error::Corrupt);
    }
    Ok((klen, vlen))
}

/// Reads the whole record at `ptr`, which the caller knows to be
/// well formed and contained in the strand.
pub fn read_item(strand: &mut Strand, dev: &Memory, ptr: FilePointer) -> (r: Result<Item, Error>)
    requires
        dev.wf(),
        old(strand).wf(dev.contents().len() as int),
        old(strand).start <= ptr,
        spec_item_header_ok(dev.contents(), ptr as int),
        spec_item_end(dev.contents(), ptr as int) <= old(strand).start + old(strand).capacity,
    ensures
        final(strand).spec_frame() == old(strand).spec_frame(),
        final(strand).wf(dev.contents().len() as int),
        r matches Ok(item) && Some((item.key@, item.value@)) == spec_item_at(
            dev.contents(),
            ptr as int,
        ),
{
    let ghost p = ptr as int;
    let lens: (u64, u64) = match read_item_header(strand, dev, ptr) {
        Ok(lens) => lens,
        Err(_) => {
            return Err(Error::Corrupt);
        },
    };
    let (klen, vlen): (u64, u64) = lens;
    let mut reader = StrandReader::new(strand, ptr + 32);
    let key: Vec<u8> = match reader.read_exact(strand, dev, klen as usize) {
        Ok(v) => v,
        Err(_) => {
            return Err(Error::Corrupt);
        },
    };
    let val: Vec<u8> = match reader.read_exact(strand, dev, vlen as usize) {
        Ok(v) => v,
        Err(_) => {
            return Err(Error::Corrupt);
        },
    };
    Ok(Item { key, value: val })
}

} // verus!
