//! The streaming archive encoder: turns an ordered entry list into the
//! container byte stream, append-only and without buffering whole entries.
//!
//! Per entry the stream holds a local header (with sizes deferred), the
//! payload, and a trailing descriptor carrying the CRC and sizes learned
//! while streaming; after all entries come one directory record per entry
//! and the terminator. `spec_archive` is the mathematical form of that
//! stream, and the encoder's contracts tie every emitted byte to it.

use vstd::prelude::*;
use vstd::slice::slice_to_vec;

use crate::crc::{crc32_of, ChecksumAccumulator};
use crate::deflate::{deflate_of, deflate_partial, deflater_fed, deflater_feed, deflater_finish,
    deflater_new, deflater_out};
use crate::errors::EncodeError;
use crate::records::{append_central_record, descriptor_bytes, lemma_descriptor_len,
    lemma_local_header_len, local_header_bytes, spec_central_record, spec_descriptor,
    spec_local_header, spec_terminator, terminator_bytes, DirectoryRecord, DirectoryRecordView,
    METHOD_DEFLATE, METHOD_STORE};

verus! {

/// Compression choice, fixed once per archive and applied to every entry.
#[derive(Debug, Clone, Copy, PartialEq, Eq, Structural)]
pub enum CompressionMethod {
    /// No transform: the payload is the source bytes.
    Store,
    /// The payload is the deflate stream of the source bytes.
    Deflate,
}

pub open spec fn spec_method_code(m: CompressionMethod) -> u16 {
    match m {
        CompressionMethod::Store => METHOD_STORE,
        CompressionMethod::Deflate => METHOD_DEFLATE,
    }
}

pub fn method_code(m: CompressionMethod) -> (c: u16)
    ensures
        c == spec_method_code(m),
{
    match m {
        CompressionMethod::Store => METHOD_STORE,
        CompressionMethod::Deflate => METHOD_DEFLATE,
    }
}

/// The mathematical image of one entry: its stored name, coarse modification
/// stamps, and its source bytes.
#[verifier::ext_equal]
pub struct EntryView {
    pub name: Seq<u8>,
    pub mod_time: u16,
    pub mod_date: u16,
    pub data: Seq<u8>,
}

/// A name is usable as a stored name when it is non-empty and its length
/// fits the header's 16-bit name-length field.
pub open spec fn spec_name_ok(name: Seq<u8>) -> bool {
    0 < name.len() <= 0xffff
}

/// The payload bytes written for an entry's data under a method.
pub open spec fn spec_payload(m: CompressionMethod, data: Seq<u8>) -> Seq<u8> {
    match m {
        CompressionMethod::Store => data,
        CompressionMethod::Deflate => deflate_of(data),
    }
}

/// The directory record an entry earns, given the offset its local header
/// was written at.
pub open spec fn spec_entry_record(e: EntryView, m: CompressionMethod, offset: u64) -> DirectoryRecordView {
    DirectoryRecordView {
        name: e.name,
        crc: crc32_of(e.data),
        compressed_size: spec_payload(m, e.data).len() as u64,
        uncompressed_size: e.data.len() as u64,
        local_offset: offset,
        method_code: spec_method_code(m),
        mod_time: e.mod_time,
        mod_date: e.mod_date,
    }
}

/// Everything one entry contributes to the stream body:
/// [local header][payload][trailing descriptor].
pub open spec fn spec_entry_stream(e: EntryView, m: CompressionMethod) -> Seq<u8> {
    spec_local_header(e.name, spec_method_code(m), e.mod_time, e.mod_date) + spec_payload(m, e.data)
        + spec_descriptor(
        crc32_of(e.data),
        spec_payload(m, e.data).len() as u64,
        e.data.len() as u64,
    )
}

/// The stream body: every entry's contribution, in input order.
pub open spec fn spec_entries_stream(entries: Seq<EntryView>, m: CompressionMethod) -> Seq<u8>
    decreases entries.len(),
{
    if entries.len() == 0 {
        Seq::empty()
    } else {
        spec_entries_stream(entries.drop_last(), m) + spec_entry_stream(entries.last(), m)
    }
}

/// Where entry `i`'s local header stands in the stream: right after the
/// contributions of the entries before it.
pub open spec fn spec_entry_offset(entries: Seq<EntryView>, m: CompressionMethod, i: int) -> nat {
    spec_entries_stream(entries.take(i), m).len()
}

/// The directory records of an entry list, in input order.
pub open spec fn spec_directory_records(entries: Seq<EntryView>, m: CompressionMethod) -> Seq<
    DirectoryRecordView,
> {
    Seq::new(
        entries.len(),
        |i: int| spec_entry_record(entries[i], m, spec_entry_offset(entries, m, i) as u64),
    )
}

/// The central directory bytes: one record per entry, in input order.
pub open spec fn spec_central_directory(records: Seq<DirectoryRecordView>) -> Seq<u8>
    decreases records.len(),
{
    if records.len() == 0 {
        Seq::empty()
    } else {
        spec_central_directory(records.drop_last()) + spec_central_record(records.last())
    }
}

/// The whole archive stream for an entry list and method: body, directory,
/// terminator.
pub open spec fn spec_archive(entries: Seq<EntryView>, m: CompressionMethod) -> Seq<u8> {
    let body = spec_entries_stream(entries, m);
    let dir = spec_central_directory(spec_directory_records(entries, m));
    body + dir + spec_terminator(entries.len() as u64, dir.len() as u64, body.len() as u64)
}

pub proof fn lemma_entries_stream_push(entries: Seq<EntryView>, e: EntryView, m: CompressionMethod)
    ensures
        spec_entries_stream(entries.push(e), m) == spec_entries_stream(entries, m)
            + spec_entry_stream(e, m),
{
    assert(entries.push(e).drop_last() =~= entries);
    assert(entries.push(e).last() == e);
}

pub proof fn lemma_entries_stream_take_succ(
    entries: Seq<EntryView>,
    i: int,
    m: CompressionMethod,
)
    requires
        0 <= i < entries.len(),
    ensures
        spec_entries_stream(entries.take(i + 1), m) == spec_entries_stream(entries.take(i), m)
            + spec_entry_stream(entries[i], m),
{
    assert(entries.take(i + 1).drop_last() =~= entries.take(i));
    assert(entries.take(i + 1).last() == entries[i]);
}

pub proof fn lemma_entries_stream_take_len(entries: Seq<EntryView>, i: int, m: CompressionMethod)
    requires
        0 <= i <= entries.len(),
    ensures
        spec_entries_stream(entries.take(i), m).len() <= spec_entries_stream(entries, m).len(),
    decreases entries.len() - i,
{
    if i == entries.len() {
        assert(entries.take(i) =~= entries);
    } else {
        lemma_entries_stream_take_succ(entries, i, m);
        lemma_entries_stream_take_len(entries, i + 1, m);
    }
}

pub proof fn lemma_central_directory_take_succ(records: Seq<DirectoryRecordView>, i: int)
    requires
        0 <= i < records.len(),
    ensures
        spec_central_directory(records.take(i + 1)) == spec_central_directory(records.take(i))
            + spec_central_record(records[i]),
{
    assert(records.take(i + 1).drop_last() =~= records.take(i));
    assert(records.take(i + 1).last() == records[i]);
}

pub proof fn lemma_directory_records_push(
    entries: Seq<EntryView>,
    e: EntryView,
    m: CompressionMethod,
)
    ensures
        spec_directory_records(entries.push(e), m) =~= spec_directory_records(entries, m).push(
            (spec_entry_record(e, m, spec_entries_stream(entries, m).len() as u64)),
        ),
{
    let s1 = spec_directory_records(entries.push(e), m);
    let s2 = spec_directory_records(entries, m).push(
        (spec_entry_record(e, m, spec_entries_stream(entries, m).len() as u64)),
    );
    assert forall|i: int| 0 <= i < s1.len() implies s1[i] == s2[i] by {
        if i < entries.len() {
            assert(entries.push(e).take(i) =~= entries.take(i));
        } else {
            assert(entries.push(e).take(i) =~= entries);
        }
    }
}

/// Stateful emitter for one archive. Methods hand back the bytes to write;
/// the concatenation of everything handed back is pinned to `spec_archive`.
pub struct ZipEncoder {
    method: CompressionMethod,
    offset: u64,
    records: Vec<DirectoryRecord>,
    in_entry: bool,
    cur_name: Vec<u8>,
    cur_time: u16,
    cur_date: u16,
    cur_offset: u64,
    acc: ChecksumAccumulator,
    cur_compressed: u64,
    compressor: Option<flate2::Compress>,
    done: Ghost<Seq<EntryView>>,
    emitted: Ghost<Seq<u8>>,
}

impl ZipEncoder {
    /// The archive's compression method.
    pub closed spec fn spec_method(&self) -> CompressionMethod {
        self.method
    }

    /// The entries whose streams have been fully emitted.
    pub closed spec fn entries_done(&self) -> Seq<EntryView> {
        self.done@
    }

    /// Every byte handed back so far, in order.
    pub closed spec fn spec_emitted(&self) -> Seq<u8> {
        self.emitted@
    }

    /// Whether an entry is open (header emitted, descriptor not yet).
    pub closed spec fn spec_in_entry(&self) -> bool {
        self.in_entry
    }

    /// The entry currently open, with the data fed so far.
    pub closed spec fn cur_entry(&self) -> EntryView {
        EntryView {
            name: self.cur_name@,
            mod_time: self.cur_time,
            mod_date: self.cur_date,
            data: self.acc.bytes_seen(),
        }
    }

    /// The payload bytes already emitted for the open entry.
    pub closed spec fn cur_payload(&self) -> Seq<u8> {
        match self.method {
            CompressionMethod::Store => self.acc.bytes_seen(),
            CompressionMethod::Deflate => deflater_out(self.compressor->Some_0),
        }
    }

    pub closed spec fn wf(&self) -> bool {
        &&& self.acc.wf()
        &&& self.offset == self.spec_emitted().len()
        &&& self.records@.len() == self.done@.len()
        &&& (forall|i: int|
            0 <= i < self.records@.len() ==> (#[trigger] self.records@[i])@
                == spec_directory_records(self.done@, self.method)[i])
        &&& (forall|i: int|
            0 <= i < self.done@.len() ==> spec_name_ok(#[trigger] self.done@[i].name))
        &&& if self.in_entry {
            &&& spec_name_ok(self.cur_name@)
            &&& self.cur_offset == spec_entries_stream(self.done@, self.method).len()
            &&& self.spec_emitted() == spec_entries_stream(self.done@, self.method)
                + spec_local_header(
                self.cur_name@,
                spec_method_code(self.method),
                self.cur_time,
                self.cur_date,
            ) + self.cur_payload()
            &&& self.cur_compressed == self.cur_payload().len()
            &&& (self.method is Deflate ==> self.compressor is Some && deflater_fed(
                self.compressor->Some_0,
            ) == self.acc.bytes_seen() && deflater_out(self.compressor->Some_0)
                == deflate_partial(self.acc.bytes_seen()))
        } else {
            self.spec_emitted() == spec_entries_stream(self.done@, self.method)
        }
    }

    /// A fresh encoder: nothing emitted, no entries done, no entry open.
    pub fn new(method: CompressionMethod) -> (enc: Self)
        ensures
            enc.wf(),
            !enc.spec_in_entry(),
            enc.spec_method() == method,
            enc.entries_done() == Seq::<EntryView>::empty(),
            enc.spec_emitted() == Seq::<u8>::empty(),
    {
        let enc = ZipEncoder {
            method,
            offset: 0,
            records: Vec::new(),
            in_entry: false,
            cur_name: Vec::new(),
            cur_time: 0,
            cur_date: 0,
            cur_offset: 0,
            acc: ChecksumAccumulator::new(),
            cur_compressed: 0,
            compressor: None,
            done: Ghost(Seq::empty()),
            emitted: Ghost(Seq::empty()),
        };
        enc
    }

    /// Opens the next entry and hands back its local header bytes. Fails,
    /// leaving the encoder unusable, only when the running offset would
    /// leave the 64-bit range.
    pub fn begin_entry(&mut self, name: &Vec<u8>, mod_time: u16, mod_date: u16) -> (r: Result<
        Vec<u8>,
        EncodeError,
    >)
        requires
            old(self).wf(),
            !old(self).spec_in_entry(),
            spec_name_ok(name@),
        ensures
            r is Ok <==> old(self).spec_emitted().len() + 30 + name@.len() <= u64::MAX,
            r matches Err(e) ==> e == EncodeError::Encode && *final(self) == *old(self),
            r matches Ok(h) ==> {
                &&& final(self).wf()
                &&& final(self).spec_in_entry()
                &&& final(self).spec_method() == old(self).spec_method()
                &&& final(self).entries_done() == old(self).entries_done()
                &&& h@ == spec_local_header(
                    name@,
                    spec_method_code(old(self).spec_method()),
                    mod_time,
                    mod_date,
                )
                &&& final(self).spec_emitted() == old(self).spec_emitted() + h@
                &&& final(self).cur_entry() == (EntryView {
                    name: name@,
                    mod_time,
                    mod_date,
                    data: Seq::<u8>::empty(),
                })
            },
    {
        let code = method_code(self.method);
        let h = local_header_bytes(name, code, mod_time, mod_date);
        proof {
            lemma_local_header_len(name@, code, mod_time, mod_date);
        }
        let hlen: u64 = h.len() as u64;
        let new_offset = match self.offset.checked_add(hlen) {
            Some(v) => v,
            None => {
                return Err(EncodeError::Encode);
            },
        };
        self.cur_offset = self.offset;
        self.offset = new_offset;
        self.in_entry = true;
        self.cur_name = slice_to_vec(name.as_slice());
        self.cur_time = mod_time;
        self.cur_date = mod_date;
        self.acc = ChecksumAccumulator::new();
        self.cur_compressed = 0;
        self.compressor = match self.method {
            CompressionMethod::Store => None,
            CompressionMethod::Deflate => Some(deflater_new()),
        };
        proof {
            self.emitted@ = self.emitted@ + h@;
        }
        proof {
            assert(self.spec_emitted() =~= spec_entries_stream(self.done@, self.method)
                + spec_local_header(self.cur_name@, spec_method_code(self.method), mod_time, mod_date)
                + self.cur_payload());
        }
        Ok(h)
    }

    /// Feeds the next chunk of the open entry's source bytes and hands back
    /// the payload bytes it produced (the chunk itself under `Store`, the
    /// compressor's ready output under `Deflate`). Fails, leaving the
    /// encoder unusable, only when a size counter would leave the 64-bit
    /// range.
    pub fn append_chunk(&mut self, chunk: &[u8]) -> (r: Result<Vec<u8>, EncodeError>)
        requires
            old(self).wf(),
            old(self).spec_in_entry(),
        ensures
            old(self).spec_method() is Store ==> (r is Ok <==> {
                &&& old(self).cur_entry().data.len() + chunk@.len() <= u64::MAX
                &&& old(self).spec_emitted().len() + chunk@.len() <= u64::MAX
            }),
            old(self).spec_method() is Deflate ==> (r is Ok <==> {
                &&& old(self).cur_entry().data.len() + chunk@.len() <= u64::MAX
                &&& old(self).spec_emitted().len() + deflate_partial(
                    old(self).cur_entry().data + chunk@,
                ).len() - deflate_partial(old(self).cur_entry().data).len() <= u64::MAX
            }),
            r matches Err(e) ==> e == EncodeError::Encode,
            r matches Ok(out) ==> {
                &&& final(self).wf()
                &&& final(self).spec_in_entry()
                &&& final(self).spec_method() == old(self).spec_method()
                &&& final(self).entries_done() == old(self).entries_done()
                &&& final(self).cur_entry() == (EntryView {
                    data: old(self).cur_entry().data + chunk@,
                    ..old(self).cur_entry()
                })
                &&& final(self).spec_emitted() == old(self).spec_emitted() + out@
                &&& (old(self).spec_method() is Store ==> out@ == chunk@)
            },
    {
        let n: u64 = chunk.len() as u64;
        if self.acc.byte_count() > u64::MAX - n {
            return Err(EncodeError::Encode);
        }
        match self.method {
            CompressionMethod::Store => {
                let new_offset = match self.offset.checked_add(n) {
                    Some(v) => v,
                    None => {
                        return Err(EncodeError::Encode);
                    },
                };
                self.acc.update(chunk);
                self.cur_compressed = self.cur_compressed + n;
                self.offset = new_offset;
                proof {
                    self.emitted@ = self.emitted@ + chunk@;
                }
                let out = slice_to_vec(chunk);
                proof {
                    assert(self.spec_emitted() =~= spec_entries_stream(self.done@, self.method)
                        + spec_local_header(
                        self.cur_name@,
                        spec_method_code(self.method),
                        self.cur_time,
                        self.cur_date,
                    ) + self.cur_payload());
                }
                Ok(out)
            },
            CompressionMethod::Deflate => {
                let mut c = self.compressor.take().unwrap();
                let out = deflater_feed(&mut c, chunk);
                self.compressor = Some(c);
                let outlen: u64 = out.len() as u64;
                proof {
                    assert(old(self).cur_entry().data + chunk@ =~= self.acc.bytes_seen()
                        + chunk@);
                    assert(out@.len() == deflate_partial(self.acc.bytes_seen() + chunk@).len()
                        - deflate_partial(self.acc.bytes_seen()).len());
                    // The payload emitted so far is a suffix of everything
                    // emitted, so its counter is the smaller of the two.
                    assert(self.cur_compressed <= self.offset);
                }
                let new_offset = match self.offset.checked_add(outlen) {
                    Some(v) => v,
                    None => {
                        return Err(EncodeError::Encode);
                    },
                };
                let new_compressed = match self.cur_compressed.checked_add(outlen) {
                    Some(v) => v,
                    None => {
                        proof {
                            // Unreachable: the payload counter never exceeds
                            // the offset counter, whose sum just fit.
                            assert(false);
                        }
                        return Err(EncodeError::Encode);
                    },
                };
                self.acc.update(chunk);
                self.cur_compressed = new_compressed;
                self.offset = new_offset;
                proof {
                    self.emitted@ = self.emitted@ + out@;
                }
                proof {
                    assert(self.spec_emitted() =~= spec_entries_stream(self.done@, self.method)
                        + spec_local_header(
                        self.cur_name@,
                        spec_method_code(self.method),
                        self.cur_time,
                        self.cur_date,
                    ) + self.cur_payload());
                }
                Ok(out)
            },
        }
    }

    /// Closes the open entry: hands back any payload still owed (the
    /// compressor's final flush under `Deflate`) followed by the trailing
    /// descriptor, and appends the entry's directory record. Fails, leaving
    /// the encoder unusable, only when a size counter would leave the
    /// 64-bit range.
    pub fn finish_entry(&mut self) -> (r: Result<Vec<u8>, EncodeError>)
        requires
            old(self).wf(),
            old(self).spec_in_entry(),
        ensures
            old(self).spec_method() is Store ==> (r is Ok <==> old(self).spec_emitted().len() + 24
                <= u64::MAX),
            old(self).spec_method() is Deflate ==> (r is Ok <==> old(self).spec_emitted().len()
                + deflate_of(old(self).cur_entry().data).len() - deflate_partial(
                old(self).cur_entry().data,
            ).len() + 24 <= u64::MAX),
            r matches Err(e) ==> e == EncodeError::Encode,
            r matches Ok(out) ==> {
                &&& final(self).wf()
                &&& !final(self).spec_in_entry()
                &&& final(self).spec_method() == old(self).spec_method()
                &&& final(self).entries_done() == old(self).entries_done().push(
                    old(self).cur_entry(),
                )
                &&& final(self).spec_emitted() == old(self).spec_emitted() + out@
                &&& final(self).spec_emitted() == spec_entries_stream(
                    final(self).entries_done(),
                    final(self).spec_method(),
                )
            },
    {
        let ghost e = self.cur_entry();
        let ghost pre_payload = self.cur_payload();
        let mut tail: Vec<u8> = Vec::new();
        if let CompressionMethod::Deflate = self.method {
            let c = self.compressor.take().unwrap();
            tail = deflater_finish(c);
            let outlen: u64 = tail.len() as u64;
            proof {
                assert(tail@.len() == deflate_of(e.data).len() - deflate_partial(e.data).len());
                // The payload emitted so far is a suffix of everything
                // emitted, so its counter is the smaller of the two.
                assert(self.cur_compressed <= self.offset);
            }
            let new_compressed = match self.cur_compressed.checked_add(outlen) {
                Some(v) => v,
                None => {
                    return Err(EncodeError::Encode);
                },
            };
            let new_offset = match self.offset.checked_add(outlen) {
                Some(v) => v,
                None => {
                    return Err(EncodeError::Encode);
                },
            };
            self.cur_compressed = new_compressed;
            self.offset = new_offset;
        }
        let new_offset = match self.offset.checked_add(24) {
            Some(v) => v,
            None => {
                return Err(EncodeError::Encode);
            },
        };
        let crc = self.acc.crc();
        let uncompressed = self.acc.byte_count();
        let d = descriptor_bytes(crc, self.cur_compressed, uncompressed);
        proof {
            lemma_descriptor_len(crc, self.cur_compressed, uncompressed);
        }
        let record = DirectoryRecord {
            name: slice_to_vec(self.cur_name.as_slice()),
            crc,
            compressed_size: self.cur_compressed,
            uncompressed_size: uncompressed,
            local_offset: self.cur_offset,
            method_code: method_code(self.method),
            mod_time: self.cur_time,
            mod_date: self.cur_date,
        };
        proof {
            lemma_directory_records_push(self.done@, e, self.method);
            lemma_entries_stream_push(self.done@, e, self.method);
        }
        self.records.push(record);
        self.offset = new_offset;
        self.in_entry = false;
        self.compressor = None;
        let ghost tail_bytes = tail@;
        let mut out = tail;
        let mut d2 = d;
        out.append(&mut d2);
        proof {
            self.emitted@ = self.emitted@ + out@;
            self.done@ = self.done@.push(e);
        }
        proof {
            assert(pre_payload + tail_bytes =~= spec_payload(self.method, e.data));
            assert(spec_entry_stream(e, self.method) =~= spec_local_header(
                e.name,
                spec_method_code(self.method),
                e.mod_time,
                e.mod_date,
            ) + (pre_payload + tail_bytes) + spec_descriptor(
                crc32_of(e.data),
                spec_payload(self.method, e.data).len() as u64,
                e.data.len() as u64,
            ));
            assert(self.spec_emitted() =~= spec_entries_stream(self.done@, self.method));
        }
        Ok(out)
    }

    /// Emits the central directory and the terminator record, consuming the
    /// encoder. Together with everything handed back before, the stream now
    /// equals `spec_archive` for the entries that were written.
    pub fn finish_archive(self) -> (out: Vec<u8>)
        requires
            self.wf(),
            !self.spec_in_entry(),
        ensures
            self.spec_emitted() + out@ == spec_archive(self.entries_done(), self.spec_method()),
    {
        let ghost recs = spec_directory_records(self.done@, self.method);
        let mut dir: Vec<u8> = Vec::new();
        let mut i: usize = 0;
        while i < self.records.len()
            invariant
                self.wf(),
                i <= self.records@.len(),
                dir@ == spec_central_directory(recs.take(i as int)),
                recs == spec_directory_records(self.done@, self.method),
                recs.len() == self.records@.len(),
            decreases self.records@.len() - i,
        {
            proof {
                lemma_central_directory_take_succ(recs, i as int);
                assert(self.records@[i as int]@ == recs[i as int]);
                assert(spec_name_ok(self.done@[i as int].name));
            }
            append_central_record(&mut dir, &self.records[i]);
            i = i + 1;
        }
        proof {
            assert(recs.take(recs.len() as int) =~= recs);
        }
        let count: u64 = self.records.len() as u64;
        let dir_size: u64 = dir.len() as u64;
        let mut t = terminator_bytes(count, dir_size, self.offset);
        let mut out = dir;
        out.append(&mut t);
        proof {
            assert(self.spec_emitted() + out@ =~= spec_archive(
                self.entries_done(),
                self.spec_method(),
            ));
        }
        out
    }
}

/// One entry handed to the encoder with its bytes already in memory.
pub struct ZipEntry {
    /// Stored name: non-empty, forward-slash separated, used verbatim.
    pub name: Vec<u8>,
    /// Modification time, format-native coarse encoding.
    pub mod_time: u16,
    /// Modification date, format-native coarse encoding.
    pub mod_date: u16,
    /// The entry's source bytes.
    pub data: Vec<u8>,
}

impl View for ZipEntry {
    type V = EntryView;

    open spec fn view(&self) -> EntryView {
        EntryView {
            name: self.name@,
            mod_time: self.mod_time,
            mod_date: self.mod_date,
            data: self.data@,
        }
    }
}

/// The views of a list of in-memory entries.
pub open spec fn spec_entry_views(entries: Seq<ZipEntry>) -> Seq<EntryView> {
    entries.map_values(|e: ZipEntry| e@)
}

/// Whether a one-shot Deflate drive of the encoder stays within the 64-bit
/// offset range: the whole stream fits, and within each entry the offset
/// reached after the compressor's ready output -- before the final flush
/// and the descriptor -- fits too.
pub open spec fn spec_deflate_fits(entries: Seq<EntryView>) -> bool {
    &&& spec_entries_stream(entries, CompressionMethod::Deflate).len() <= u64::MAX
    &&& forall|i: int|
        0 <= i < entries.len() ==> spec_entry_offset(entries, CompressionMethod::Deflate, i) + 30
            + (#[trigger] entries[i]).name.len() + deflate_partial(entries[i].data).len()
            <= u64::MAX
}

/// Encodes a whole entry list into one archive stream. Each entry is still
/// streamed through the encoder chunk-wise internally; this is the one-shot
/// form for callers whose data is already in memory.
#[verifier::rlimit(100)]
#[verifier::spinoff_prover]
pub fn encode_entries(entries: &Vec<ZipEntry>, method: CompressionMethod) -> (r: Result<
    Vec<u8>,
    EncodeError,
>)
    requires
        forall|i: int| 0 <= i < entries@.len() ==> spec_name_ok((#[trigger] entries@[i])@.name),
    ensures
        r matches Ok(out) ==> out@ == spec_archive(spec_entry_views(entries@), method),
        r matches Err(e) ==> e == EncodeError::Encode,
        method is Store ==> (r is Ok <==> spec_entries_stream(
            spec_entry_views(entries@),
            method,
        ).len() <= u64::MAX),
        method is Deflate ==> (r is Ok <==> spec_deflate_fits(spec_entry_views(entries@))),
    {
    let ghost views = spec_entry_views(entries@);
    let mut enc = ZipEncoder::new(method);
    let mut out: Vec<u8> = Vec::new();
    let mut i: usize = 0;
    proof {
        assert(views.take(0) =~= Seq::<EntryView>::empty());
    }
    while i < entries.len()
        invariant
            forall|k: int| 0 <= k < entries@.len() ==> spec_name_ok((#[trigger] entries@[k])@.name),
            views == spec_entry_views(entries@),
            views.len() == entries@.len(),
            forall|k: int| 0 <= k < entries@.len() ==> views[k] == (#[trigger] entries@[k])@,
            i <= entries@.len(),
            enc.wf(),
            !enc.spec_in_entry(),
            enc.spec_method() == method,
            enc.entries_done() == views.take(i as int),
            out@ == enc.spec_emitted(),
            method is Deflate ==> (forall|k: int|
                0 <= k < i ==> spec_entry_offset(views, CompressionMethod::Deflate, k) + 30 + (
                #[trigger] views[k]).name.len() + deflate_partial(views[k].data).len()
                    <= u64::MAX),
        decreases entries@.len() - i,
    {
        let e = &entries[i];
        proof {
            lemma_entries_stream_take_succ(views, i as int, method);
            lemma_entries_stream_take_len(views, i as int + 1, method);
            lemma_local_header_len(e@.name, spec_method_code(method), e.mod_time, e.mod_date);
            lemma_descriptor_len(
                crc32_of(e@.data),
                spec_payload(method, e@.data).len() as u64,
                e@.data.len() as u64,
            );
            if method is Deflate && spec_deflate_fits(views) {
                assert(spec_entry_offset(views, CompressionMethod::Deflate, i as int) + 30 + (
                views[i as int]).name.len() + deflate_partial(views[i as int].data).len()
                    <= u64::MAX);
            }
        }
        let h = match enc.begin_entry(&e.name, e.mod_time, e.mod_date) {
            Ok(h) => h,
            Err(err) => {
                proof {
                    if method is Deflate {
                        assert(spec_entry_offset(views, CompressionMethod::Deflate, i as int)
                            + 30 + views[i as int].name.len() + deflate_partial(
                            views[i as int].data,
                        ).len() > u64::MAX);
                    }
                }
                return Err(err);
            },
        };
        let mut h = h;
        out.append(&mut h);
        let ghost before_chunk = enc;
        proof {
            if method is Deflate {
                // A freshly opened entry has emitted no payload, so the
                // compressor's pre-flush output of nothing is nothing.
                assert(before_chunk.cur_entry().data =~= Seq::<u8>::empty());
                assert(before_chunk.cur_payload().len() == 0);
                assert(deflate_partial(before_chunk.cur_entry().data).len() == 0);
                assert(before_chunk.cur_entry().data + e.data@ =~= e@.data);
                assert(before_chunk.spec_emitted().len() == spec_entry_offset(
                    views,
                    CompressionMethod::Deflate,
                    i as int,
                ) + 30 + views[i as int].name.len());
                assert(e.data@.len() <= usize::MAX) by {
                    vstd::std_specs::vec::axiom_spec_len(&e.data);
                }
            }
        }
        let p = match enc.append_chunk(e.data.as_slice()) {
            Ok(p) => p,
            Err(err) => {
                proof {
                    if method is Deflate {
                        assert(before_chunk.cur_entry().data.len() + e.data@.len()
                            <= u64::MAX);
                        assert(spec_entry_offset(views, CompressionMethod::Deflate, i as int)
                            + 30 + views[i as int].name.len() + deflate_partial(
                            views[i as int].data,
                        ).len() > u64::MAX);
                    }
                }
                return Err(err);
            },
        };
        let mut p = p;
        out.append(&mut p);
        proof {
            assert(enc.cur_entry().data =~= e@.data);
            assert(enc.cur_entry() =~= e@);
            if method is Deflate {
                assert(before_chunk.cur_entry().data + e.data@ =~= e@.data);
                assert(enc.spec_emitted().len() == spec_entry_offset(
                    views,
                    CompressionMethod::Deflate,
                    i as int,
                ) + 30 + views[i as int].name.len() + deflate_partial(views[i as int].data).len());
            }
        }
        let d = match enc.finish_entry() {
            Ok(d) => d,
            Err(err) => {
                proof {
                    if method is Deflate {
                        assert(spec_entries_stream(views.take(i as int + 1), method).len()
                            > u64::MAX);
                    }
                }
                return Err(err);
            },
        };
        let mut d = d;
        out.append(&mut d);
        i = i + 1;
        proof {
            assert(enc.entries_done() =~= views.take(i as int));
        }
    }
    proof {
        assert(views.take(entries@.len() as int) =~= views);
    }
    let mut t = enc.finish_archive();
    out.append(&mut t);
    Ok(out)
}

} // verus!
