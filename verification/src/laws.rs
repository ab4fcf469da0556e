//! Archive-wide guarantees, stated and proved over the stream model.

use vstd::prelude::*;
use vstd::bytes::{lemma_auto_spec_u16_to_from_le_bytes, lemma_auto_spec_u32_to_from_le_bytes,
    lemma_auto_spec_u64_to_from_le_bytes, spec_u16_from_le_bytes, spec_u16_to_le_bytes,
    spec_u32_from_le_bytes, spec_u32_to_le_bytes, spec_u64_from_le_bytes};

use crate::crc::crc32_of;
use crate::encoder::{lemma_central_directory_take_succ, lemma_entries_stream_take_len,
    lemma_entries_stream_take_succ, spec_archive, spec_central_directory,
    spec_directory_records, spec_entries_stream, spec_entry_offset, spec_entry_stream,
    spec_name_ok, spec_payload, CompressionMethod, EntryView};
use crate::records::{lemma_central_record_len, lemma_descriptor_len, lemma_le_bytes_len,
    lemma_local_header_len, lemma_terminator_len, spec_central_record, spec_needs_zip64,
    spec_terminator, spec_zip64_extra, DirectoryRecordView, LOCAL_HEADER_SIG, SENTINEL32,
    ZIP64_EXTRA_ID, ZIP64_EXTRA_LEN};

verus! {

/// Encoding an empty entry list produces a minimal stream: nothing but one
/// terminator record with entry count 0, 22 bytes in all.
pub proof fn lemma_empty_archive(m: CompressionMethod)
    ensures
        spec_archive(Seq::<EntryView>::empty(), m) == spec_terminator(0, 0, 0),
        spec_archive(Seq::<EntryView>::empty(), m).len() == 22,
{
    let entries = Seq::<EntryView>::empty();
    assert(spec_directory_records(entries, m) =~= Seq::<DirectoryRecordView>::empty());
    lemma_terminator_len(0, 0, 0);
    assert(spec_archive(entries, m) =~= spec_terminator(0, 0, 0));
}

/// The CRC-32 recorded for entry `i` -- in its directory record and in the
/// trailing descriptor inside its stream segment -- is the CRC-32 of that
/// entry's source bytes, and the sizes beside it are the payload and source
/// lengths.
pub proof fn lemma_checksums_recorded(entries: Seq<EntryView>, m: CompressionMethod, i: int)
    requires
        0 <= i < entries.len(),
    ensures
        spec_directory_records(entries, m)[i].crc == crc32_of(entries[i].data),
        spec_directory_records(entries, m)[i].uncompressed_size == entries[i].data.len() as u64,
        spec_directory_records(entries, m)[i].compressed_size == spec_payload(
            m,
            entries[i].data,
        ).len() as u64,
        spec_entry_stream(entries[i], m) == spec_local_header_of(entries[i], m) + spec_payload(
            m,
            entries[i].data,
        ) + crate::records::spec_descriptor(
            crc32_of(entries[i].data),
            spec_payload(m, entries[i].data).len() as u64,
            entries[i].data.len() as u64,
        ),
{
}

/// The local header an entry's stream segment opens with.
pub open spec fn spec_local_header_of(e: EntryView, m: CompressionMethod) -> Seq<u8> {
    crate::records::spec_local_header(
        e.name,
        crate::encoder::spec_method_code(m),
        e.mod_time,
        e.mod_date,
    )
}

/// Entries are emitted in input order: directory record `i` carries entry
/// `i`'s name, and the recorded local-header offsets increase strictly with
/// `i`.
pub proof fn lemma_directory_order(entries: Seq<EntryView>, m: CompressionMethod, i: int)
    requires
        0 <= i < entries.len(),
        spec_entries_stream(entries, m).len() <= u64::MAX,
    ensures
        spec_directory_records(entries, m)[i].name == entries[i].name,
        spec_directory_records(entries, m)[i].local_offset == spec_entry_offset(entries, m, i),
        i + 1 < entries.len() ==> spec_directory_records(entries, m)[i].local_offset
            < spec_directory_records(entries, m)[i + 1].local_offset,
{
    lemma_entries_stream_take_len(entries, i + 1, m);
    lemma_entries_stream_take_len(entries, i, m);
    lemma_entries_stream_take_succ(entries, i, m);
    lemma_local_header_len(
        entries[i].name,
        crate::encoder::spec_method_code(m),
        entries[i].mod_time,
        entries[i].mod_date,
    );
    lemma_descriptor_len(
        crc32_of(entries[i].data),
        spec_payload(m, entries[i].data).len() as u64,
        entries[i].data.len() as u64,
    );
    if i + 1 < entries.len() {
        lemma_entries_stream_take_len(entries, i + 2, m);
        lemma_entries_stream_take_succ(entries, i + 1, m);
    }
}

/// The extension block carries the true 64-bit sizes and offset where a
/// reader of the typed extra field looks for them: the block's type tag,
/// its payload length, then uncompressed size, compressed size and local
/// offset, each recoverable by little-endian decoding.
pub proof fn lemma_zip64_extra_parses(r: DirectoryRecordView)
    ensures
        spec_zip64_extra(r).len() == 28,
        spec_u16_from_le_bytes(spec_zip64_extra(r).subrange(0, 2)) == ZIP64_EXTRA_ID,
        spec_u16_from_le_bytes(spec_zip64_extra(r).subrange(2, 4)) == ZIP64_EXTRA_LEN,
        spec_u64_from_le_bytes(spec_zip64_extra(r).subrange(4, 12)) == r.uncompressed_size,
        spec_u64_from_le_bytes(spec_zip64_extra(r).subrange(12, 20)) == r.compressed_size,
        spec_u64_from_le_bytes(spec_zip64_extra(r).subrange(20, 28)) == r.local_offset,
{
    lemma_le_bytes_len();
    lemma_auto_spec_u16_to_from_le_bytes();
    lemma_auto_spec_u64_to_from_le_bytes();
    assert(spec_zip64_extra(r).subrange(0, 2) =~= spec_u16_to_le_bytes(ZIP64_EXTRA_ID));
    assert(spec_zip64_extra(r).subrange(2, 4) =~= spec_u16_to_le_bytes(ZIP64_EXTRA_LEN));
    assert(spec_zip64_extra(r).subrange(4, 12) =~= vstd::bytes::spec_u64_to_le_bytes(
        r.uncompressed_size,
    ));
    assert(spec_zip64_extra(r).subrange(12, 20) =~= vstd::bytes::spec_u64_to_le_bytes(
        r.compressed_size,
    ));
    assert(spec_zip64_extra(r).subrange(20, 28) =~= vstd::bytes::spec_u64_to_le_bytes(
        r.local_offset,
    ));
}

/// For a record that needs the large-size extension, the directory record
/// writes the three 32-bit size/offset fields as the all-ones sentinel, the
/// stored name follows the fixed fields, and the extension block with the
/// true 64-bit values closes the record.
pub proof fn lemma_large_sizes_escaped(r: DirectoryRecordView)
    requires
        spec_needs_zip64(r),
        r.name.len() <= 0xffff,
    ensures
        spec_central_record(r).len() == 74 + r.name.len(),
        spec_central_record(r).subrange(20, 24) == spec_u32_to_le_bytes(SENTINEL32),
        spec_central_record(r).subrange(24, 28) == spec_u32_to_le_bytes(SENTINEL32),
        spec_central_record(r).subrange(42, 46) == spec_u32_to_le_bytes(SENTINEL32),
        spec_central_record(r).subrange(46, 46 + r.name.len() as int) == r.name,
        spec_central_record(r).subrange(
            46 + r.name.len() as int,
            74 + r.name.len() as int,
        ) == spec_zip64_extra(r),
{
    lemma_le_bytes_len();
    lemma_central_record_len(r);
    assert(spec_central_record(r).subrange(20, 24) =~= spec_u32_to_le_bytes(SENTINEL32));
    assert(spec_central_record(r).subrange(24, 28) =~= spec_u32_to_le_bytes(SENTINEL32));
    assert(spec_central_record(r).subrange(42, 46) =~= spec_u32_to_le_bytes(SENTINEL32));
    assert(spec_central_record(r).subrange(46, 46 + r.name.len() as int) =~= r.name);
    assert(spec_central_record(r).subrange(46 + r.name.len() as int, 74 + r.name.len() as int)
        =~= spec_zip64_extra(r));
}

/// The terminator record closes the stream and tells a reader where the
/// directory is: the archive's last 22 bytes open with the terminator
/// signature and carry -- whenever the counts and lengths still fit their
/// fields -- the entry count, the directory's byte size, and the
/// directory's start offset; and the bytes between the body and the
/// terminator are exactly the directory.
pub proof fn lemma_terminator_locates_directory(entries: Seq<EntryView>, m: CompressionMethod)
    requires
        entries.len() < 0xffff,
        spec_entries_stream(entries, m).len() < 0xffffffff,
        spec_central_directory(spec_directory_records(entries, m)).len() < 0xffffffff,
    ensures
        ({
            let archive = spec_archive(entries, m);
            let body = spec_entries_stream(entries, m);
            let dir = spec_central_directory(spec_directory_records(entries, m));
            let t = body.len() as int + dir.len() as int;
            &&& archive.len() == body.len() + dir.len() + 22
            &&& archive.subrange(body.len() as int, t) == dir
            &&& archive.subrange(t, t + 4) == spec_u32_to_le_bytes(
                crate::records::TERMINATOR_SIG,
            )
            &&& spec_u16_from_le_bytes(archive.subrange(t + 10, t + 12)) == entries.len()
            &&& spec_u32_from_le_bytes(archive.subrange(t + 12, t + 16)) == dir.len()
            &&& spec_u32_from_le_bytes(archive.subrange(t + 16, t + 20)) == body.len()
        }),
{
    let archive = spec_archive(entries, m);
    let body = spec_entries_stream(entries, m);
    let dir = spec_central_directory(spec_directory_records(entries, m));
    let t = body.len() as int + dir.len() as int;
    let term = spec_terminator(entries.len() as u64, dir.len() as u64, body.len() as u64);
    lemma_le_bytes_len();
    lemma_auto_spec_u16_to_from_le_bytes();
    lemma_auto_spec_u32_to_from_le_bytes();
    lemma_terminator_len(entries.len() as u64, dir.len() as u64, body.len() as u64);
    assert(archive.subrange(body.len() as int, t) =~= dir);
    assert(archive.subrange(t, archive.len() as int) =~= term);
    assert(term.subrange(0, 4) =~= spec_u32_to_le_bytes(crate::records::TERMINATOR_SIG));
    assert(term.subrange(10, 12) =~= spec_u16_to_le_bytes(
        crate::records::spec_cap_u16(entries.len() as u64),
    ));
    assert(term.subrange(12, 16) =~= spec_u32_to_le_bytes(
        crate::records::spec_cap_u32(dir.len() as u64),
    ));
    assert(term.subrange(16, 20) =~= spec_u32_to_le_bytes(
        crate::records::spec_cap_u32(body.len() as u64),
    ));
    assert(archive.subrange(t, t + 4) =~= term.subrange(0, 4));
    assert(archive.subrange(t + 10, t + 12) =~= term.subrange(10, 12));
    assert(archive.subrange(t + 12, t + 16) =~= term.subrange(12, 16));
    assert(archive.subrange(t + 16, t + 20) =~= term.subrange(16, 20));
}

proof fn lemma_directory_take_len(records: Seq<DirectoryRecordView>, i: int)
    requires
        0 <= i <= records.len(),
    ensures
        spec_central_directory(records.take(i)).len() <= spec_central_directory(records).len(),
    decreases records.len() - i,
{
    if i == records.len() {
        assert(records.take(i) =~= records);
    } else {
        lemma_central_directory_take_succ(records, i);
        lemma_directory_take_len(records, i + 1);
    }
}

proof fn lemma_directory_take_is_prefix(records: Seq<DirectoryRecordView>, i: int)
    requires
        0 <= i <= records.len(),
    ensures
        spec_central_directory(records).subrange(
            0,
            spec_central_directory(records.take(i)).len() as int,
        ) == spec_central_directory(records.take(i)),
    decreases records.len() - i,
{
    if i == records.len() {
        assert(records.take(i) =~= records);
        assert(spec_central_directory(records).subrange(
            0,
            spec_central_directory(records).len() as int,
        ) =~= spec_central_directory(records));
    } else {
        lemma_directory_take_len(records, i);
        lemma_directory_take_len(records, i + 1);
        lemma_central_directory_take_succ(records, i);
        lemma_directory_take_is_prefix(records, i + 1);
        assert(spec_central_directory(records).subrange(
            0,
            spec_central_directory(records.take(i)).len() as int,
        ) =~= spec_central_directory(records.take(i)));
    }
}

/// Record `i` sits in the directory bytes exactly after the records before
/// it: a reader walking the directory record by record visits the records
/// in entry order.
pub proof fn lemma_directory_record_segment(records: Seq<DirectoryRecordView>, i: int)
    requires
        0 <= i < records.len(),
    ensures
        spec_central_directory(records).subrange(
            spec_central_directory(records.take(i)).len() as int,
            spec_central_directory(records.take(i)).len() as int + spec_central_record(
                records[i],
            ).len() as int,
        ) == spec_central_record(records[i]),
{
    lemma_directory_take_is_prefix(records, i + 1);
    lemma_central_directory_take_succ(records, i);
    lemma_directory_take_len(records, i + 1);
    let lo = spec_central_directory(records.take(i)).len() as int;
    let seg = spec_central_record(records[i]);
    let hi = lo + seg.len() as int;
    let pre = spec_central_directory(records.take(i + 1));
    assert(pre.len() == hi);
    assert(spec_central_directory(records).subrange(lo, hi) =~= pre.subrange(lo, hi));
    assert(pre.subrange(lo, hi) =~= seg);
}

pub proof fn lemma_stream_take_is_prefix(entries: Seq<EntryView>, m: CompressionMethod, i: int)
    requires
        0 <= i <= entries.len(),
    ensures
        spec_entries_stream(entries, m).subrange(
            0,
            spec_entries_stream(entries.take(i), m).len() as int,
        ) == spec_entries_stream(entries.take(i), m),
    decreases entries.len() - i,
{
    lemma_entries_stream_take_len(entries, i, m);
    if i == entries.len() {
        assert(entries.take(i) =~= entries);
        assert(spec_entries_stream(entries, m).subrange(
            0,
            spec_entries_stream(entries, m).len() as int,
        ) =~= spec_entries_stream(entries, m));
    } else {
        lemma_entries_stream_take_succ(entries, i, m);
        lemma_entries_stream_take_len(entries, i + 1, m);
        lemma_stream_take_is_prefix(entries, m, i + 1);
        assert(spec_entries_stream(entries, m).subrange(
            0,
            spec_entries_stream(entries.take(i), m).len() as int,
        ) =~= spec_entries_stream(entries.take(i), m));
    }
}

/// Entry `i`'s contribution sits in the stream body exactly at its recorded
/// offset.
pub proof fn lemma_stream_entry_segment(entries: Seq<EntryView>, m: CompressionMethod, i: int)
    requires
        0 <= i < entries.len(),
    ensures
        spec_entries_stream(entries, m).subrange(
            spec_entry_offset(entries, m, i) as int,
            spec_entry_offset(entries, m, i) as int + spec_entry_stream(entries[i], m).len() as int,
        ) == spec_entry_stream(entries[i], m),
{
    lemma_stream_take_is_prefix(entries, m, i + 1);
    lemma_entries_stream_take_succ(entries, i, m);
    lemma_entries_stream_take_len(entries, i + 1, m);
    let lo = spec_entry_offset(entries, m, i) as int;
    let seg = spec_entry_stream(entries[i], m);
    let hi = lo + seg.len() as int;
    let pre = spec_entries_stream(entries.take(i + 1), m);
    assert(pre.len() == hi);
    assert(spec_entries_stream(entries, m).subrange(lo, hi) =~= pre.subrange(lo, hi));
    assert(pre.subrange(lo, hi) =~= seg);
}

/// One directory record followed the way a standard reader does: find the
/// local header the record's offset points at, check its signature, take the
/// name and extra-field lengths from the header, read the name, then read
/// the `compressed_size` payload bytes that follow. Yields the stored name
/// and the payload, or nothing if the stream does not parse that way.
pub open spec fn spec_read_entry(stream: Seq<u8>, r: DirectoryRecordView) -> Option<
    (Seq<u8>, Seq<u8>),
> {
    let off = r.local_offset as int;
    if off + 30 <= stream.len() {
        let name_len = spec_u16_from_le_bytes(stream.subrange(off + 26, off + 28)) as int;
        let extra_len = spec_u16_from_le_bytes(stream.subrange(off + 28, off + 30)) as int;
        let payload_start = off + 30 + name_len + extra_len;
        let payload_end = payload_start + r.compressed_size;
        if stream.subrange(off, off + 4) == spec_u32_to_le_bytes(LOCAL_HEADER_SIG)
            && payload_end <= stream.len() {
            Some(
                (
                    stream.subrange(off + 30, off + 30 + name_len),
                    stream.subrange(payload_start, payload_end),
                ),
            )
        } else {
            None
        }
    } else {
        None
    }
}

/// Where the fixed header fields sit inside an entry's stream segment.
pub proof fn lemma_entry_segment_fields(e: EntryView, m: CompressionMethod)
    requires
        e.name.len() <= 0xffff,
    ensures
        spec_entry_stream(e, m).len() == 54 + e.name.len() + spec_payload(m, e.data).len(),
        spec_entry_stream(e, m).subrange(0, 4) == spec_u32_to_le_bytes(LOCAL_HEADER_SIG),
        spec_entry_stream(e, m).subrange(26, 28) == spec_u16_to_le_bytes(e.name.len() as u16),
        spec_entry_stream(e, m).subrange(28, 30) == spec_u16_to_le_bytes(0),
        spec_entry_stream(e, m).subrange(30, 30 + e.name.len() as int) == e.name,
        spec_entry_stream(e, m).subrange(
            30 + e.name.len() as int,
            30 + e.name.len() as int + spec_payload(m, e.data).len() as int,
        ) == spec_payload(m, e.data),
{
    lemma_le_bytes_len();
    lemma_local_header_len(e.name, crate::encoder::spec_method_code(m), e.mod_time, e.mod_date);
    lemma_descriptor_len(
        crc32_of(e.data),
        spec_payload(m, e.data).len() as u64,
        e.data.len() as u64,
    );
    let seg = spec_entry_stream(e, m);
    let nl = e.name.len() as int;
    let pl = spec_payload(m, e.data).len() as int;
    assert(seg.subrange(0, 4) =~= spec_u32_to_le_bytes(LOCAL_HEADER_SIG));
    assert(seg.subrange(26, 28) =~= spec_u16_to_le_bytes(e.name.len() as u16));
    assert(seg.subrange(28, 30) =~= spec_u16_to_le_bytes(0));
    assert(seg.subrange(30, 30 + nl) =~= e.name);
    assert(seg.subrange(30 + nl, 30 + nl + pl) =~= spec_payload(m, e.data));
}

/// Round trip under `Store`: reading any entry of the produced stream back
/// through its directory record yields exactly the entry's source bytes,
/// under its stored name, at its recorded place -- for every entry list
/// whose names are usable and whose body the offset fields can address.
#[verifier::spinoff_prover]
pub proof fn lemma_store_round_trip(entries: Seq<EntryView>, i: int)
    requires
        0 <= i < entries.len(),
        forall|k: int| 0 <= k < entries.len() ==> spec_name_ok(#[trigger] entries[k].name),
        spec_entries_stream(entries, CompressionMethod::Store).len() <= u64::MAX,
    ensures
        spec_read_entry(
            spec_archive(entries, CompressionMethod::Store),
            spec_directory_records(entries, CompressionMethod::Store)[i],
        ) == Some((entries[i].name, entries[i].data)),
{
    let m = CompressionMethod::Store;
    let e = entries[i];
    let r = spec_directory_records(entries, m)[i];
    let body = spec_entries_stream(entries, m);
    let dir = spec_central_directory(spec_directory_records(entries, m));
    let term = spec_terminator(entries.len() as u64, dir.len() as u64, body.len() as u64);
    let archive = spec_archive(entries, m);
    let seg = spec_entry_stream(e, m);
    let off = spec_entry_offset(entries, m, i) as int;
    lemma_auto_spec_u16_to_from_le_bytes();
    lemma_entry_segment_fields(e, m);
    lemma_entries_stream_take_len(entries, i, m);
    lemma_entries_stream_take_succ(entries, i, m);
    lemma_entries_stream_take_len(entries, i + 1, m);
    lemma_stream_entry_segment(entries, m, i);
    // The segment fits inside the body, whose length the offset fields can
    // carry, so the record's stored offset is exact.
    assert(off + seg.len() <= body.len());
    assert(r.local_offset == off);
    assert(r.compressed_size == e.data.len());
    // The archive extends the body, so every window of the segment reads the
    // same through the archive.
    assert(archive == (body + dir) + term);
    let nl = e.name.len() as int;
    let windows: Seq<(int, int)> = seq![
        (0int, 4int),
        (26int, 28int),
        (28int, 30int),
        (30int, 30 + nl),
        (30 + nl, 30 + nl + e.data.len() as int),
    ];
    assert forall|w: (int, int)| windows.contains(w) implies archive.subrange(
        off + w.0,
        off + w.1,
    ) == seg.subrange(w.0, w.1) by {
        assert(0 <= w.0 <= w.1 <= seg.len());
        lemma_concat_window(body + dir, term, off + w.0, off + w.1);
        lemma_concat_window(body, dir, off + w.0, off + w.1);
        lemma_subwindow(body, seg, off, w.0, w.1);
    }
    assert(windows.contains((0int, 4int)));
    assert(windows.contains((26int, 28int)));
    assert(windows.contains((28int, 30int)));
    assert(windows.contains((30int, 30 + nl)));
    assert(windows.contains((30 + nl, 30 + nl + e.data.len() as int)));
}

/// A window inside the left part of a concatenation reads the same there.
proof fn lemma_concat_window(p: Seq<u8>, q: Seq<u8>, a: int, b: int)
    requires
        0 <= a <= b <= p.len(),
    ensures
        (p + q).subrange(a, b) == p.subrange(a, b),
{
    assert((p + q).subrange(a, b) =~= p.subrange(a, b));
}

/// A window of an embedded piece reads the same through the whole.
proof fn lemma_subwindow(s: Seq<u8>, w: Seq<u8>, lo: int, a: int, b: int)
    requires
        0 <= lo,
        lo + w.len() <= s.len(),
        s.subrange(lo, lo + w.len() as int) == w,
        0 <= a <= b <= w.len(),
    ensures
        s.subrange(lo + a, lo + b) == w.subrange(a, b),
{
    assert(s.subrange(lo + a, lo + b) =~= w.subrange(a, b));
}

} // verus!
