//! Byte layouts of the container records: local header, trailing descriptor,
//! central directory record (with the large-size extension), and terminator.
//! All multi-byte integers are little-endian.

use vstd::prelude::*;
use vstd::bytes::*;

verus! {

/// Signature of a local file header.
pub const LOCAL_HEADER_SIG: u32 = 0x04034b50;

/// Signature of a trailing (data) descriptor.
pub const DESCRIPTOR_SIG: u32 = 0x08074b50;

/// Signature of a central directory record.
pub const CENTRAL_HEADER_SIG: u32 = 0x02014b50;

/// Signature of the terminator (end-of-directory) record.
pub const TERMINATOR_SIG: u32 = 0x06054b50;

/// Version-needed marker written when an entry uses only 32-bit fields.
pub const VERSION_BASE: u16 = 20;

/// Version marker for entries carrying the 64-bit size extension, and the
/// version-made-by marker of every directory record.
pub const VERSION_ZIP64: u16 = 45;

/// General-purpose flag with the "sizes deferred to a trailing descriptor"
/// bit set. The encoder never rewinds, so it is set on every entry.
pub const FLAG_SIZES_DEFERRED: u16 = 0x0008;

/// Compression method code for entries stored without transform.
pub const METHOD_STORE: u16 = 0;

/// Compression method code for deflated entries.
pub const METHOD_DEFLATE: u16 = 8;

/// Type tag of the extra block carrying true 64-bit sizes and offset.
pub const ZIP64_EXTRA_ID: u16 = 0x0001;

/// Payload length of that extra block: three 64-bit fields.
pub const ZIP64_EXTRA_LEN: u16 = 24;

/// All-ones sentinel for a 32-bit field whose true value lives in the
/// extension block (or is lost, for the terminator's fields).
pub const SENTINEL32: u32 = 0xffffffff;

/// A 32-bit field value: the value itself, or the sentinel once it no longer
/// fits below the sentinel.
pub open spec fn spec_cap_u32(v: u64) -> u32 {
    if v >= 0xffffffff {
        0xffffffffu32
    } else {
        v as u32
    }
}

pub fn cap_u32(v: u64) -> (r: u32)
    ensures
        r == spec_cap_u32(v),
{
    if v >= 0xffffffff {
        0xffffffff
    } else {
        v as u32
    }
}

/// A 16-bit field value, capped the same way.
pub open spec fn spec_cap_u16(v: u64) -> u16 {
    if v >= 0xffff {
        0xffffu16
    } else {
        v as u16
    }
}

pub fn cap_u16(v: u64) -> (r: u16)
    ensures
        r == spec_cap_u16(v),
{
    if v >= 0xffff {
        0xffff
    } else {
        v as u16
    }
}

/// One per entry, accumulated while entries are written and emitted as the
/// central directory once all payloads are out. Immutable once appended.
pub struct DirectoryRecord {
    /// Stored name, used verbatim.
    pub name: Vec<u8>,
    /// CRC-32 of the entry's source bytes.
    pub crc: u32,
    /// Payload size as written to the stream.
    pub compressed_size: u64,
    /// Size of the source bytes.
    pub uncompressed_size: u64,
    /// Offset of the entry's local header in the output stream.
    pub local_offset: u64,
    /// Compression method code.
    pub method_code: u16,
    /// Modification time, format-native coarse encoding.
    pub mod_time: u16,
    /// Modification date, format-native coarse encoding.
    pub mod_date: u16,
}

/// The mathematical image of a `DirectoryRecord`.
#[verifier::ext_equal]
pub struct DirectoryRecordView {
    pub name: Seq<u8>,
    pub crc: u32,
    pub compressed_size: u64,
    pub uncompressed_size: u64,
    pub local_offset: u64,
    pub method_code: u16,
    pub mod_time: u16,
    pub mod_date: u16,
}

impl View for DirectoryRecord {
    type V = DirectoryRecordView;

    open spec fn view(&self) -> DirectoryRecordView {
        DirectoryRecordView {
            name: self.name@,
            crc: self.crc,
            compressed_size: self.compressed_size,
            uncompressed_size: self.uncompressed_size,
            local_offset: self.local_offset,
            method_code: self.method_code,
            mod_time: self.mod_time,
            mod_date: self.mod_date,
        }
    }
}

/// Whether a record needs the large-size extension: set as soon as one of
/// the three wide fields reaches the 32-bit sentinel.
pub open spec fn spec_needs_zip64(r: DirectoryRecordView) -> bool {
    r.compressed_size >= 0xffffffff || r.uncompressed_size >= 0xffffffff || r.local_offset
        >= 0xffffffff
}

impl DirectoryRecord {
    /// Derived flag: true when compressed size, uncompressed size or local
    /// offset exceeds what a 32-bit field can carry.
    pub fn needs_large_extension(&self) -> (z: bool)
        ensures
            z == spec_needs_zip64(self@),
    {
        self.compressed_size >= 0xffffffff || self.uncompressed_size >= 0xffffffff
            || self.local_offset >= 0xffffffff
    }
}

/// The local header emitted before an entry's payload: signature, version,
/// the sizes-deferred flag, method, time stamps, zeroed CRC and size
/// placeholders (unknown at header time), name length, empty extra field,
/// then the name itself.
pub open spec fn spec_local_header(name: Seq<u8>, method_code: u16, mod_time: u16, mod_date: u16) -> Seq<
    u8,
>
    recommends
        name.len() <= 0xffff,
{
    spec_u32_to_le_bytes(LOCAL_HEADER_SIG) + spec_u16_to_le_bytes(VERSION_BASE)
        + spec_u16_to_le_bytes(FLAG_SIZES_DEFERRED) + spec_u16_to_le_bytes(method_code)
        + spec_u16_to_le_bytes(mod_time) + spec_u16_to_le_bytes(mod_date) + spec_u32_to_le_bytes(0)
        + spec_u32_to_le_bytes(0) + spec_u32_to_le_bytes(0) + spec_u16_to_le_bytes(
        name.len() as u16,
    ) + spec_u16_to_le_bytes(0) + name
}

/// The trailing descriptor emitted after an entry's payload: signature, the
/// now-known CRC, then compressed and uncompressed size in the wide field
/// width, so the record stays valid under the large-size extension.
pub open spec fn spec_descriptor(crc: u32, compressed_size: u64, uncompressed_size: u64) -> Seq<
    u8,
> {
    spec_u32_to_le_bytes(DESCRIPTOR_SIG) + spec_u32_to_le_bytes(crc) + spec_u64_to_le_bytes(
        compressed_size,
    ) + spec_u64_to_le_bytes(uncompressed_size)
}

/// The typed extra block carrying the true 64-bit sizes and offset.
pub open spec fn spec_zip64_extra(r: DirectoryRecordView) -> Seq<u8> {
    spec_u16_to_le_bytes(ZIP64_EXTRA_ID) + spec_u16_to_le_bytes(ZIP64_EXTRA_LEN)
        + spec_u64_to_le_bytes(r.uncompressed_size) + spec_u64_to_le_bytes(r.compressed_size)
        + spec_u64_to_le_bytes(r.local_offset)
}

/// One central directory record: mirrors the local header fields, adds the
/// bookkeeping fields and the local offset, and, when the record needs the
/// large-size extension, caps the three wide fields at the sentinel and
/// appends the extension block with the true values.
pub open spec fn spec_central_record(r: DirectoryRecordView) -> Seq<u8>
    recommends
        r.name.len() <= 0xffff,
{
    let z = spec_needs_zip64(r);
    spec_u32_to_le_bytes(CENTRAL_HEADER_SIG) + spec_u16_to_le_bytes(VERSION_ZIP64)
        + spec_u16_to_le_bytes(if z { VERSION_ZIP64 } else { VERSION_BASE })
        + spec_u16_to_le_bytes(FLAG_SIZES_DEFERRED) + spec_u16_to_le_bytes(r.method_code)
        + spec_u16_to_le_bytes(r.mod_time) + spec_u16_to_le_bytes(r.mod_date)
        + spec_u32_to_le_bytes(r.crc) + spec_u32_to_le_bytes(
        if z { SENTINEL32 } else { spec_cap_u32(r.compressed_size) },
    ) + spec_u32_to_le_bytes(if z { SENTINEL32 } else { spec_cap_u32(r.uncompressed_size) })
        + spec_u16_to_le_bytes(r.name.len() as u16) + spec_u16_to_le_bytes(
        if z { (ZIP64_EXTRA_LEN + 4) as u16 } else { 0u16 },
    ) + spec_u16_to_le_bytes(0)  // comment length
     + spec_u16_to_le_bytes(0)  // disk number start
     + spec_u16_to_le_bytes(0)  // internal attributes
     + spec_u32_to_le_bytes(0)  // external attributes
     + spec_u32_to_le_bytes(if z { SENTINEL32 } else { spec_cap_u32(r.local_offset) }) + r.name + (
    if z {
        spec_zip64_extra(r)
    } else {
        Seq::<u8>::empty()
    })
}

/// The terminator record: entry counts, directory size and directory start
/// offset (each capped at its field's sentinel when it exceeds the field's
/// capacity -- the full 64-bit terminator pair is not emitted, a documented
/// size ceiling of this encoder), and an empty comment.
pub open spec fn spec_terminator(entry_count: u64, dir_size: u64, dir_offset: u64) -> Seq<u8> {
    spec_u32_to_le_bytes(TERMINATOR_SIG) + spec_u16_to_le_bytes(0)  // this disk
     + spec_u16_to_le_bytes(0)  // directory start disk
     + spec_u16_to_le_bytes(spec_cap_u16(entry_count)) + spec_u16_to_le_bytes(
        spec_cap_u16(entry_count),
    ) + spec_u32_to_le_bytes(spec_cap_u32(dir_size)) + spec_u32_to_le_bytes(
        spec_cap_u32(dir_offset),
    ) + spec_u16_to_le_bytes(0)  // comment length
}

pub proof fn lemma_le_bytes_len()
    ensures
        forall|v: u16| (#[trigger] spec_u16_to_le_bytes(v)).len() == 2,
        forall|v: u32| (#[trigger] spec_u32_to_le_bytes(v)).len() == 4,
        forall|v: u64| (#[trigger] spec_u64_to_le_bytes(v)).len() == 8,
{
    lemma_auto_spec_u16_to_from_le_bytes();
    lemma_auto_spec_u32_to_from_le_bytes();
    lemma_auto_spec_u64_to_from_le_bytes();
}

pub proof fn lemma_local_header_len(name: Seq<u8>, method_code: u16, mod_time: u16, mod_date: u16)
    ensures
        spec_local_header(name, method_code, mod_time, mod_date).len() == 30 + name.len(),
{
    lemma_le_bytes_len();
}

pub proof fn lemma_descriptor_len(crc: u32, compressed_size: u64, uncompressed_size: u64)
    ensures
        spec_descriptor(crc, compressed_size, uncompressed_size).len() == 24,
{
    lemma_le_bytes_len();
}

pub proof fn lemma_central_record_len(r: DirectoryRecordView)
    ensures
        spec_central_record(r).len() == 46 + r.name.len() + if spec_needs_zip64(r) {
            28int
        } else {
            0int
        },
{
    lemma_le_bytes_len();
}

pub proof fn lemma_terminator_len(entry_count: u64, dir_size: u64, dir_offset: u64)
    ensures
        spec_terminator(entry_count, dir_size, dir_offset).len() == 22,
{
    lemma_le_bytes_len();
}

/// Appends the little-endian bytes of a 16-bit value.
pub fn push_u16(out: &mut Vec<u8>, v: u16)
    ensures
        final(out)@ == old(out)@ + spec_u16_to_le_bytes(v),
{
    let mut b = u16_to_le_bytes(v);
    out.append(&mut b);
}

/// Appends the little-endian bytes of a 32-bit value.
pub fn push_u32(out: &mut Vec<u8>, v: u32)
    ensures
        final(out)@ == old(out)@ + spec_u32_to_le_bytes(v),
{
    let mut b = u32_to_le_bytes(v);
    out.append(&mut b);
}

/// Appends the little-endian bytes of a 64-bit value.
pub fn push_u64(out: &mut Vec<u8>, v: u64)
    ensures
        final(out)@ == old(out)@ + spec_u64_to_le_bytes(v),
{
    let mut b = u64_to_le_bytes(v);
    out.append(&mut b);
}

/// Appends a byte slice verbatim.
pub fn push_bytes(out: &mut Vec<u8>, data: &[u8])
    ensures
        final(out)@ == old(out)@ + data@,
{
    let ghost orig = out@;
    let mut i: usize = 0;
    while i < data.len()
        invariant
            i <= data@.len(),
            out@ == orig + data@.subrange(0, i as int),
        decreases data@.len() - i,
    {
        out.push(data[i]);
        proof {
            assert(orig + data@.subrange(0, i as int) + seq![data@[i as int]] =~= orig
                + data@.subrange(0, i + 1));
        }
        i = i + 1;
    }
    proof {
        assert(orig + data@.subrange(0, data@.len() as int) =~= orig + data@);
    }
}

/// Builds the local header for one entry.
pub fn local_header_bytes(name: &Vec<u8>, method_code: u16, mod_time: u16, mod_date: u16) -> (h:
    Vec<u8>)
    requires
        name@.len() <= 0xffff,
    ensures
        h@ == spec_local_header(name@, method_code, mod_time, mod_date),
{
    let mut h: Vec<u8> = Vec::new();
    push_u32(&mut h, LOCAL_HEADER_SIG);
    push_u16(&mut h, VERSION_BASE);
    push_u16(&mut h, FLAG_SIZES_DEFERRED);
    push_u16(&mut h, method_code);
    push_u16(&mut h, mod_time);
    push_u16(&mut h, mod_date);
    push_u32(&mut h, 0);
    push_u32(&mut h, 0);
    push_u32(&mut h, 0);
    push_u16(&mut h, name.len() as u16);
    push_u16(&mut h, 0);
    push_bytes(&mut h, name.as_slice());
    proof {
        assert(h@ =~= spec_local_header(name@, method_code, mod_time, mod_date));
    }
    h
}

/// Builds the trailing descriptor for one entry.
pub fn descriptor_bytes(crc: u32, compressed_size: u64, uncompressed_size: u64) -> (d: Vec<u8>)
    ensures
        d@ == spec_descriptor(crc, compressed_size, uncompressed_size),
{
    let mut d: Vec<u8> = Vec::new();
    push_u32(&mut d, DESCRIPTOR_SIG);
    push_u32(&mut d, crc);
    push_u64(&mut d, compressed_size);
    push_u64(&mut d, uncompressed_size);
    proof {
        assert(d@ =~= spec_descriptor(crc, compressed_size, uncompressed_size));
    }
    d
}

/// Appends one central directory record.
pub fn append_central_record(out: &mut Vec<u8>, r: &DirectoryRecord)
    requires
        r.name@.len() <= 0xffff,
    ensures
        final(out)@ == old(out)@ + spec_central_record(r@),
{
    let z = r.needs_large_extension();
    push_u32(out, CENTRAL_HEADER_SIG);
    push_u16(out, VERSION_ZIP64);
    push_u16(out, if z { VERSION_ZIP64 } else { VERSION_BASE });
    push_u16(out, FLAG_SIZES_DEFERRED);
    push_u16(out, r.method_code);
    push_u16(out, r.mod_time);
    push_u16(out, r.mod_date);
    push_u32(out, r.crc);
    push_u32(out, if z { SENTINEL32 } else { cap_u32(r.compressed_size) });
    push_u32(out, if z { SENTINEL32 } else { cap_u32(r.uncompressed_size) });
    push_u16(out, r.name.len() as u16);
    push_u16(out, if z { ZIP64_EXTRA_LEN + 4 } else { 0 });
    push_u16(out, 0);
    push_u16(out, 0);
    push_u16(out, 0);
    push_u32(out, 0);
    push_u32(out, if z { SENTINEL32 } else { cap_u32(r.local_offset) });
    push_bytes(out, r.name.as_slice());
    if z {
        push_u16(out, ZIP64_EXTRA_ID);
        push_u16(out, ZIP64_EXTRA_LEN);
        push_u64(out, r.uncompressed_size);
        push_u64(out, r.compressed_size);
        push_u64(out, r.local_offset);
    }
    proof {
        assert(out@ =~= old(out)@ + spec_central_record(r@));
    }
}

/// Builds the terminator record.
pub fn terminator_bytes(entry_count: u64, dir_size: u64, dir_offset: u64) -> (t: Vec<u8>)
    ensures
        t@ == spec_terminator(entry_count, dir_size, dir_offset),
{
    let mut t: Vec<u8> = Vec::new();
    push_u32(&mut t, TERMINATOR_SIG);
    push_u16(&mut t, 0);
    push_u16(&mut t, 0);
    let c = cap_u16(entry_count);
    push_u16(&mut t, c);
    push_u16(&mut t, c);
    push_u32(&mut t, cap_u32(dir_size));
    push_u32(&mut t, cap_u32(dir_offset));
    push_u16(&mut t, 0);
    proof {
        assert(t@ =~= spec_terminator(entry_count, dir_size, dir_offset));
    }
    t
}

} // verus!
