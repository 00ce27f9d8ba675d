//! The record scanner: a table held in memory, read frame by frame.
use vstd::prelude::*;

use crate::bytes::copy_range;
use crate::error::{DbfError, UnsupportedFieldTypeError};
use crate::field::{
    descriptor_count, descriptor_matches, descriptor_type, descriptor_valid, lemma_offset_before_bound,
    offset_before, read_field_info, FieldInfo,
};
use crate::header::{header_matches, Header};
use crate::memo::{block_size_of, MemoReader};
use crate::parser::FieldValue;
use crate::record::{
    fields_chained, fields_end, fields_fit, lemma_chained_in_bounds, lemma_fields_end_is_sum, sum_lengths, parse_record, record_decodes,
    record_error, record_values,
};
use crate::version::version_of;

verus! {

/// The byte that marks a record as deleted.
pub const DELETION_MARK: u8 = 0x2A;

/// Offset of the descriptor table from the start of a table.
pub const DESCRIPTORS_START: usize = 32;

/// What the scanner finds at a position of the record area.
pub enum Frame {
    /// Fewer than two bytes are left: the records are exhausted.
    End,
    /// A frame whose deletion mark is set.
    Deleted,
    /// A live frame cut short by the end of the data.
    Short,
    /// A complete live frame.
    Live,
}

/// The frame at `pos` of `data`, for records of `rl` bytes.
pub open spec fn frame_at(data: Seq<u8>, rl: int, pos: int) -> Frame {
    if rl < 2 || data.len() - pos < 2 {
        Frame::End
    } else if data[pos] == DELETION_MARK {
        Frame::Deleted
    } else if data.len() - pos < rl {
        Frame::Short
    } else {
        Frame::Live
    }
}

/// Where the frame after the one at `pos` starts.
pub open spec fn after_frame(data: Seq<u8>, rl: int, pos: int) -> int {
    if pos + rl <= data.len() {
        pos + rl
    } else {
        data.len() as int
    }
}

/// The first frame at or after `pos` that is not deleted.
pub open spec fn skip_deleted(data: Seq<u8>, rl: int, pos: int) -> int
    decreases data.len() - pos,
{
    if 0 <= pos <= data.len() && frame_at(data, rl, pos) is Deleted {
        skip_deleted(data, rl, after_frame(data, rl, pos))
    } else {
        pos
    }
}

/// The live records from `pos` on, in order: what the stream yields.
pub open spec fn live_frames(data: Seq<u8>, rl: int, pos: int) -> Seq<Seq<u8>>
    decreases data.len() - pos,
{
    if !(0 <= pos <= data.len()) {
        Seq::empty()
    } else {
        match frame_at(data, rl, pos) {
            Frame::Deleted => live_frames(data, rl, after_frame(data, rl, pos)),
            Frame::Live => seq![data.subrange(pos, pos + rl)] + live_frames(data, rl, pos + rl),
            _ => Seq::empty(),
        }
    }
}

/// Where the scan from `pos` finds the records exhausted or cut short.
pub open spec fn scan_end(data: Seq<u8>, rl: int, pos: int) -> int
    decreases data.len() - pos,
{
    if !(0 <= pos <= data.len()) {
        pos
    } else {
        match frame_at(data, rl, pos) {
            Frame::Deleted => scan_end(data, rl, after_frame(data, rl, pos)),
            Frame::Live => scan_end(data, rl, pos + rl),
            _ => pos,
        }
    }
}

/// Skipping deleted frames changes neither the live records ahead nor
/// where the scan ends.
proof fn lemma_skip_deleted(data: Seq<u8>, rl: int, pos: int)
    requires
        0 <= pos <= data.len(),
    ensures
        0 <= pos <= skip_deleted(data, rl, pos) <= data.len(),
        !(frame_at(data, rl, skip_deleted(data, rl, pos)) is Deleted),
        live_frames(data, rl, pos) == live_frames(data, rl, skip_deleted(data, rl, pos)),
        scan_end(data, rl, pos) == scan_end(data, rl, skip_deleted(data, rl, pos)),
    decreases data.len() - pos,
{
    if frame_at(data, rl, pos) is Deleted {
        lemma_skip_deleted(data, rl, after_frame(data, rl, pos));
    }
}

/// A table held in memory, with its header, its fields, an optional memo
/// file and the position of the next record frame.
pub struct DbfReader {
    data: Vec<u8>,
    header: Header,
    fields: Vec<FieldInfo>,
    memo_reader: Option<MemoReader>,
    buffer: Vec<u8>,
    position: usize,
}

impl DbfReader {
    /// The table's bytes.
    pub closed spec fn data(&self) -> Seq<u8> {
        self.data@
    }

    /// The table's header.
    pub closed spec fn header_spec(&self) -> Header {
        self.header
    }

    /// The table's fields, in record order.
    pub closed spec fn fields_spec(&self) -> Seq<FieldInfo> {
        self.fields@
    }

    /// The memo file attached to the table, if any.
    pub closed spec fn memo(&self) -> Option<MemoReader> {
        self.memo_reader
    }

    /// Position of the next record frame; bytes before it are consumed.
    pub closed spec fn position(&self) -> int {
        self.position as int
    }

    /// The header and the fields agree, and the position lies in the record
    /// area.
    pub closed spec fn wf(&self) -> bool {
        &&& fields_chained(self.fields@)
        &&& fields_end(self.fields@) == self.header.record_length
        &&& self.buffer@.len() == self.header.record_length
        &&& self.header.header_length <= self.position <= self.data@.len()
    }

    /// Opens a table held in `data`, with the memo file held in `memo` if
    /// the table has one. The descriptor table runs from byte 32 to the
    /// header length; the scan starts at the header length.
    pub fn from_reader(data: Vec<u8>, memo: Option<Vec<u8>>) -> (r: Result<DbfReader, DbfError>)
        ensures
            data@.len() == 0 ==> r is Err && r->Err_0 is Io,
            data@.len() > 0 && version_of(data@[0]) is None ==> r is Err && r->Err_0
                == DbfError::UnsupportedVersion(data@[0]),
            data@.len() > 0 && version_of(data@[0]) is Some && data@.len() < 12 ==> r is Err
                && r->Err_0 is Io,
            r is Ok ==> {
                let t = r->Ok_0;
                let table = data@.subrange(32, t.header_spec().header_length as int);
                &&& t.wf()
                &&& t.data() == data@
                &&& data@.len() >= 12 && header_matches(t.header_spec(), data@)
                &&& 32 <= t.header_spec().header_length <= data@.len()
                &&& t.fields_spec().len() == descriptor_count(table)
                &&& forall|i: int|
                    0 <= i < t.fields_spec().len() ==> descriptor_matches(
                        #[trigger] t.fields_spec()[i],
                        table,
                        i,
                    )
                &&& t.position() == t.header_spec().header_length
                &&& match memo {
                    None => t.memo() is None,
                    Some(m) => t.memo() is Some && t.memo()->Some_0.data() == m@
                        && t.memo()->Some_0.version() == t.header_spec().version && Some(
                        t.memo()->Some_0.block_size(),
                    ) == block_size_of(t.header_spec().version, m@),
                }
            },
            data@.len() >= 12 && version_of(data@[0]) is Some ==> {
                let hl = crate::bytes::le_u16_of(data@.subrange(8, 10));
                let rl = crate::bytes::le_u16_of(data@.subrange(10, 12));
                let table = data@.subrange(32, hl);
                let count = descriptor_count(table);
                &&& (hl < 32 || hl > data@.len()) ==> r is Err && r->Err_0 is Io
                &&& 32 <= hl <= data@.len() ==> {
                    &&& (exists|k: int| 0 <= k < count && !descriptor_valid(table, k)) ==> exists|k: int|
                        {
                            &&& 0 <= k < count
                            &&& !descriptor_valid(table, k)
                            &&& forall|j: int| 0 <= j < k ==> #[trigger] descriptor_valid(table, j)
                            &&& r is Err && r->Err_0 == DbfError::UnsupportedFieldType(
                                UnsupportedFieldTypeError(descriptor_type(table, k) as char),
                            )
                        }
                    &&& (forall|k: int| 0 <= k < count ==> descriptor_valid(table, k))
                        ==> (offset_before(table, count as int) != rl ==> r is Err
                        && r->Err_0 == DbfError::RecordLengthMismatch {
                        record_length: rl as usize,
                        fields_end: offset_before(table, count as int) as usize,
                    })
                    &&& (forall|k: int| 0 <= k < count ==> descriptor_valid(table, k))
                        && offset_before(table, count as int) == rl ==> match memo {
                        None => r is Ok,
                        Some(m) => (r is Ok <==> block_size_of(version_of(data@[0])->Some_0, m@) is Some)
                            && (r is Err ==> r->Err_0 is Io),
                    }
                }
            },
    {
        let header = Header::from_reader(data.as_slice())?;
        if header.header_length < DESCRIPTORS_START || header.header_length > data.len() {
            return Err(DbfError::Io);
        }
        let table = copy_range(data.as_slice(), DESCRIPTORS_START, header.header_length);
        let fields = match read_field_info(table.as_slice()) {
            Ok(f) => f,
            Err(e) => {
                return Err(DbfError::UnsupportedFieldType(e));
            },
        };
        let ghost t = table@;
        let ghost count = descriptor_count(t);
        let end: usize = if fields.len() == 0 {
            1
        } else {
            let last = &fields[fields.len() - 1];
            proof {
                lemma_offset_before_bound(t, count - 1);
                crate::field::lemma_descriptor_count_bound(t, 0);
                assert(descriptor_matches(fields@[count - 1], t, count - 1));
            }
            last.offset + last.length
        };
        assert(end == offset_before(t, count as int));
        if end != header.record_length {
            return Err(DbfError::RecordLengthMismatch { record_length: header.record_length, fields_end: end });
        }
        assert(fields_chained(fields@)) by {
            if fields@.len() > 0 {
                assert(descriptor_matches(fields@[0], t, 0));
            }
            assert forall|i: int| 0 < i < fields@.len() implies #[trigger] fields@[i].offset
                == fields@[i - 1].offset + fields@[i - 1].length by {
                assert(descriptor_matches(fields@[i], t, i));
                assert(descriptor_matches(fields@[i - 1], t, i - 1));
            }
        }
        let memo_reader = match memo {
            None => None,
            Some(m) => Some(MemoReader::from_reader(m, header.version)?),
        };
        let buffer: Vec<u8> = vec![0u8; header.record_length];
        let position = header.header_length;
        Ok(DbfReader { data, header, fields, memo_reader, buffer, position })
    }

    /// The table's header.
    pub fn header(&self) -> (r: &Header)
        ensures
            *r == self.header_spec(),
    {
        &self.header
    }

    /// Bytes per record, the deletion mark included.
    pub fn record_length(&self) -> (r: usize)
        ensures
            r == self.header_spec().record_length,
    {
        self.header.record_length
    }

    /// The table's fields, in record order.
    pub fn fields(&self) -> (r: &Vec<FieldInfo>)
        ensures
            r@ == self.fields_spec(),
    {
        &self.fields
    }

    /// Number of bytes of the table consumed so far.
    pub fn consumed(&self) -> (r: usize)
        ensures
            r == self.position(),
    {
        self.position
    }

    /// Moves to the next frame that is not deleted and copies it into the
    /// record buffer: `Ok(true)` when a complete live frame was copied,
    /// `Ok(false)` when the records are exhausted, an error when the last
    /// frame is cut short.
    fn read_record(&mut self) -> (r: Result<bool, DbfError>)
        requires
            old(self).wf(),
        ensures
            final(self).wf(),
            final(self).data@ == old(self).data@,
            final(self).header == old(self).header,
            final(self).fields == old(self).fields,
            final(self).memo_reader == old(self).memo_reader,
            ({
                let d = old(self).data@;
                let rl = old(self).header.record_length as int;
                let stop = skip_deleted(d, rl, old(self).position as int);
                &&& live_frames(d, rl, old(self).position as int) == live_frames(d, rl, stop)
                &&& frame_at(d, rl, stop) is End ==> r == Ok::<bool, DbfError>(false)
                    && final(self).position == d.len()
                &&& frame_at(d, rl, stop) is Short ==> r is Err && r->Err_0 is Io
                    && final(self).position == d.len()
                &&& frame_at(d, rl, stop) is Live ==> r == Ok::<bool, DbfError>(true)
                    && final(self).position == stop + rl
                    && final(self).buffer@ == d.subrange(stop, stop + rl)
            }),
    {
        let ghost d = self.data@;
        let ghost start = self.position as int;
        let len = self.data.len();
        let rl = self.header.record_length;
        proof {
            lemma_skip_deleted(d, rl as int, start);
        }
        loop
            invariant
                self.wf(),
                self.data@ == d,
                self.header == old(self).header,
                self.fields == old(self).fields,
                self.memo_reader == old(self).memo_reader,
                d == old(self).data@,
                start == old(self).position as int,
                len == d.len(),
                rl == self.header.record_length,
                0 <= self.position <= len,
                skip_deleted(d, rl as int, start) == skip_deleted(d, rl as int, self.position as int),
                live_frames(d, rl as int, start) == live_frames(d, rl as int, self.position as int),
            decreases len - self.position,
        {
            let pos = self.position;
            if rl < 2 || len - pos < 2 {
                self.position = len;
                return Ok(false);
            }
            if self.data[pos] == DELETION_MARK {
                if rl <= len - pos {
                    self.position = pos + rl;
                } else {
                    self.position = len;
                }
                continue;
            }
            if len - pos < rl {
                self.position = len;
                return Err(DbfError::Io);
            }
            fill_frame(&mut self.buffer, self.data.as_slice(), pos);
            self.position = pos + rl;
            return Ok(true);
        }
    }

    /// Reads the records to exhaustion: one result for each live record, in
    /// file order, and a final I/O error if the last frame is cut short.
    /// Afterwards the whole table is consumed.
    pub fn read_all(&mut self) -> (r: Vec<Result<Vec<FieldValue>, DbfError>>)
        requires
            old(self).wf(),
        ensures
            final(self).wf(),
            final(self).data() == old(self).data(),
            final(self).header_spec() == old(self).header_spec(),
            final(self).fields_spec() == old(self).fields_spec(),
            final(self).memo() == old(self).memo(),
            final(self).position() == old(self).data().len(),
            ({
                let t = old(self);
                let d = t.data();
                let h = t.header_spec();
                let rl = h.record_length as int;
                let live = live_frames(d, rl, t.position());
                let short = frame_at(d, rl, scan_end(d, rl, t.position())) is Short;
                &&& r@.len() == live.len() + (if short {
                    1int
                } else {
                    0int
                })
                &&& forall|i: int|
                    0 <= i < live.len() ==> record_outcome(
                        t.fields_spec(),
                        #[trigger] live[i],
                        memo_ref(&t.memo()),
                        r@[i],
                    )
                &&& short ==> r@.last() is Err && r@.last()->Err_0 is Io
                &&& t.position() == h.header_length && records_well_formed(d, h) ==> r@.len()
                    == h.record_count - deleted_records(d, h)
            }),
    {
        let ghost d = self.data@;
        let ghost rl = self.header.record_length as int;
        let ghost start = self.position as int;
        let ghost fields = self.fields@;
        let ghost memo = memo_ref(&self.memo_reader);
        let ghost mut done: Seq<Seq<u8>> = Seq::empty();
        proof {
            if start == self.header.header_length && records_well_formed(d, self.header) {
                lemma_stream_length(self);
                lemma_scan_consumes_records(self);
            }
        }
        let mut out: Vec<Result<Vec<FieldValue>, DbfError>> = Vec::new();
        loop
            invariant
                self.wf(),
                self.data@ == d,
                self.header == old(self).header,
                self.fields@ == fields,
                self.memo_reader == old(self).memo_reader,
                d == old(self).data@,
                rl == self.header.record_length,
                start == old(self).position as int,
                fields == old(self).fields@,
                memo == memo_ref(&old(self).memo_reader),
                live_frames(d, rl, start) == done + live_frames(d, rl, self.position as int),
                scan_end(d, rl, start) == scan_end(d, rl, self.position as int),
                start == self.header.header_length && records_well_formed(d, self.header) ==> {
                    &&& live_frames(d, rl, start).len() == self.header.record_count
                        - deleted_records(d, self.header)
                    &&& frame_at(d, rl, scan_end(d, rl, start)) is End
                },
                out@.len() == done.len(),
                forall|i: int|
                    0 <= i < done.len() ==> record_outcome(fields, #[trigger] done[i], memo, out@[i]),
            decreases d.len() - self.position,
        {
            let ghost before = self.position as int;
            let ghost stop = skip_deleted(d, rl, before);
            let r = self.next_record();
            let item = match r {
                Ok(None) => {
                    assert(frame_at(d, rl, stop) is End);
                    assert(scan_end(d, rl, start) == stop);
                    assert(live_frames(d, rl, d.len() as int) =~= Seq::<Seq<u8>>::empty());
                    assert(done + Seq::<Seq<u8>>::empty() =~= done);
                    return out;
                },
                Err(DbfError::Io) => {
                    assert(frame_at(d, rl, stop) is Short);
                    assert(scan_end(d, rl, start) == stop);
                    assert(live_frames(d, rl, d.len() as int) =~= Seq::<Seq<u8>>::empty());
                    assert(done + Seq::<Seq<u8>>::empty() =~= done);
                    out.push(Err(DbfError::Io));
                    return out;
                },
                Ok(Some(v)) => Ok(v),
                Err(e) => Err(e),
            };
            proof {
                let rec = d.subrange(stop, stop + rl);
                assert(frame_at(d, rl, stop) is Live);
                assert(done + live_frames(d, rl, before) =~= done.push(rec) + live_frames(
                    d,
                    rl,
                    self.position as int,
                ));
                done = done.push(rec);
            }
            out.push(item);
        }
    }

    /// Reads the next live record and decodes its fields. Deleted records
    /// are skipped; `Ok(None)` once the records are exhausted. A record whose
    /// fields do not decode yields an error, and the scan goes on after it.
    pub fn next_record(&mut self) -> (r: Result<Option<Vec<FieldValue>>, DbfError>)
        requires
            old(self).wf(),
        ensures
            final(self).wf(),
            final(self).data() == old(self).data(),
            final(self).header_spec() == old(self).header_spec(),
            final(self).fields_spec() == old(self).fields_spec(),
            final(self).memo() == old(self).memo(),
            ({
                let d = old(self).data();
                let rl = old(self).header_spec().record_length as int;
                let fields = old(self).fields_spec();
                let memo = memo_ref(&old(self).memo());
                let stop = skip_deleted(d, rl, old(self).position());
                let rec = d.subrange(stop, stop + rl);
                &&& live_frames(d, rl, old(self).position()) == (if frame_at(d, rl, stop) is Live {
                    seq![rec]
                } else {
                    Seq::empty()
                }) + live_frames(d, rl, final(self).position())
                &&& !(frame_at(d, rl, stop) is Deleted)
                &&& frame_at(d, rl, stop) is Live ==> scan_end(d, rl, old(self).position()) == scan_end(
                    d,
                    rl,
                    final(self).position(),
                )
                &&& !(frame_at(d, rl, stop) is Live) ==> scan_end(d, rl, old(self).position()) == stop
                &&& frame_at(d, rl, stop) is Live ==> final(self).position() > old(self).position()
                &&& frame_at(d, rl, stop) is End ==> r == Ok::<Option<Vec<FieldValue>>, DbfError>(None)
                    && final(self).position() == d.len()
                &&& frame_at(d, rl, stop) is Short ==> r is Err && r->Err_0 is Io
                    && final(self).position() == d.len()
                &&& frame_at(d, rl, stop) is Live ==> {
                    &&& final(self).position() == stop + rl
                    &&& r is Ok <==> record_decodes(fields, rec, memo)
                    &&& r is Ok ==> r->Ok_0 is Some && record_values(fields, rec, memo, r->Ok_0->Some_0@)
                    &&& r is Err ==> r->Err_0 is FieldParse && record_error(fields, rec, memo, r->Err_0->FieldParse_0)
                }
            }),
    {
        let ghost d = self.data@;
        let ghost rl = self.header.record_length as int;
        let ghost p = self.position as int;
        proof {
            lemma_skip_deleted(d, rl, p);
        }
        match self.read_record() {
            Err(e) => {
                return Err(e);
            },
            Ok(false) => {
                return Ok(None);
            },
            Ok(true) => {},
        }
        proof {
            let stop = skip_deleted(d, rl, p);
            assert(live_frames(d, rl, stop) == seq![d.subrange(stop, stop + rl)] + live_frames(d, rl, stop + rl));
            lemma_chained_in_bounds(self.fields@);
        }
        match parse_record(&self.fields, self.buffer.as_slice(), self.memo_reader.as_ref()) {
            Ok(values) => Ok(Some(values)),
            Err(e) => Err(DbfError::FieldParse(e)),
        }
    }
}

/// Start of record `k` of a table whose records begin at `hl`.
pub open spec fn frame_start(hl: int, rl: int, k: int) -> int {
    hl + k * rl
}

/// The record area of `data` holds exactly the records that `h` declares,
/// followed by at most one end-of-file byte.
pub open spec fn records_well_formed(data: Seq<u8>, h: Header) -> bool {
    let end = frame_start(h.header_length as int, h.record_length as int, h.record_count as int);
    &&& h.record_length >= 2
    &&& end <= data.len() <= end + 1
}

/// Number of records `k .. n` whose deletion mark is set.
pub open spec fn deleted_between(data: Seq<u8>, hl: int, rl: int, k: int, n: int) -> int
    decreases n - k,
{
    if k >= n {
        0
    } else {
        (if data[frame_start(hl, rl, k)] == DELETION_MARK {
            1int
        } else {
            0int
        }) + deleted_between(data, hl, rl, k + 1, n)
    }
}

/// Number of records of the table that are marked deleted.
pub open spec fn deleted_records(data: Seq<u8>, h: Header) -> int {
    deleted_between(data, h.header_length as int, h.record_length as int, 0, h.record_count as int)
}

proof fn lemma_scan_from_record(data: Seq<u8>, hl: int, rl: int, count: int, k: int)
    requires
        rl >= 2,
        0 <= hl,
        0 <= k <= count,
        frame_start(hl, rl, count) <= data.len() <= frame_start(hl, rl, count) + 1,
    ensures
        live_frames(data, rl, frame_start(hl, rl, k)).len() == (count - k) - deleted_between(
            data,
            hl,
            rl,
            k,
            count,
        ),
        scan_end(data, rl, frame_start(hl, rl, k)) == frame_start(hl, rl, count),
        frame_at(data, rl, frame_start(hl, rl, count)) is End,
    decreases count - k,
{
    let pos = frame_start(hl, rl, k);
    assert(frame_start(hl, rl, k + 1) == pos + rl) by (nonlinear_arith)
        requires
            pos == hl + k * rl,
    ;
    assert(pos >= hl) by (nonlinear_arith)
        requires
            pos == hl + k * rl,
            k >= 0,
            rl >= 2,
    ;
    if k < count {
        assert(frame_start(hl, rl, k + 1) <= frame_start(hl, rl, count)) by (nonlinear_arith)
            requires
                k + 1 <= count,
                rl >= 2,
        ;
        lemma_scan_from_record(data, hl, rl, count, k + 1);
        assert(after_frame(data, rl, pos) == pos + rl);
        let l = live_frames(data, rl, pos + rl);
        if data[pos] != DELETION_MARK {
            assert((seq![data.subrange(pos, pos + rl)] + l).len() == 1 + l.len());
        }
    }
}

/// The stream of a table yields each of its declared records, but those
/// marked deleted: the record count less the deleted ones.
pub proof fn lemma_stream_length(t: &DbfReader)
    requires
        t.wf(),
        records_well_formed(t.data(), t.header_spec()),
    ensures
        live_frames(
            t.data(),
            t.header_spec().record_length as int,
            t.header_spec().header_length as int,
        ).len() == t.header_spec().record_count - deleted_records(t.data(), t.header_spec()),
{
    let h = t.header_spec();
    assert(frame_start(h.header_length as int, h.record_length as int, 0) == h.header_length);
    lemma_scan_from_record(
        t.data(),
        h.header_length as int,
        h.record_length as int,
        h.record_count as int,
        0,
    );
}

/// Reading a table to exhaustion consumes the header and exactly the
/// declared records: the scan meets the end of the records at
/// `header_length + record_count * record_length`, where at most an
/// end-of-file byte is left, which the last read consumes.
pub proof fn lemma_scan_consumes_records(t: &DbfReader)
    requires
        t.wf(),
        records_well_formed(t.data(), t.header_spec()),
    ensures
        scan_end(
            t.data(),
            t.header_spec().record_length as int,
            t.header_spec().header_length as int,
        ) == t.header_spec().header_length + t.header_spec().record_count
            * t.header_spec().record_length,
        frame_at(
            t.data(),
            t.header_spec().record_length as int,
            t.header_spec().header_length + t.header_spec().record_count
                * t.header_spec().record_length,
        ) is End,
{
    let h = t.header_spec();
    assert(frame_start(h.header_length as int, h.record_length as int, 0) == h.header_length);
    lemma_scan_from_record(
        t.data(),
        h.header_length as int,
        h.record_length as int,
        h.record_count as int,
        0,
    );
}

/// A table that declares no records yields none.
pub proof fn lemma_empty_table(t: &DbfReader)
    requires
        t.wf(),
        records_well_formed(t.data(), t.header_spec()),
        t.header_spec().record_count == 0,
    ensures
        live_frames(
            t.data(),
            t.header_spec().record_length as int,
            t.header_spec().header_length as int,
        ).len() == 0,
{
    lemma_stream_length(t);
}

/// No record that the stream yields is marked deleted.
pub proof fn lemma_no_deleted_record(data: Seq<u8>, rl: int, pos: int)
    requires
        0 <= pos <= data.len(),
    ensures
        forall|i: int|
            0 <= i < live_frames(data, rl, pos).len() ==> (#[trigger] live_frames(data, rl, pos)[i]).len()
                == rl && live_frames(data, rl, pos)[i][0] != DELETION_MARK,
    decreases data.len() - pos,
{
    match frame_at(data, rl, pos) {
        Frame::Deleted => {
            lemma_no_deleted_record(data, rl, after_frame(data, rl, pos));
            assert(live_frames(data, rl, pos) == live_frames(data, rl, after_frame(data, rl, pos)));
        },
        Frame::Live => {
            lemma_no_deleted_record(data, rl, pos + rl);
            let rest = live_frames(data, rl, pos + rl);
            let all = seq![data.subrange(pos, pos + rl)] + rest;
            assert(live_frames(data, rl, pos) == all);
            assert forall|i: int| 0 <= i < all.len() implies (#[trigger] all[i]).len() == rl
                && all[i][0] != DELETION_MARK by {
                if i > 0 {
                    assert(all[i] == rest[i - 1]);
                } else {
                    assert(all[0] == data.subrange(pos, pos + rl));
                    assert(all[0][0] == data[pos]);
                }
            }
        },
        _ => {},
    }
}

/// The fields of an open table fill its records exactly: one byte for the
/// deletion mark plus the sum of the field lengths is the record length.
pub proof fn lemma_record_length_is_field_sum(t: &DbfReader)
    requires
        t.wf(),
    ensures
        1 + sum_lengths(t.fields_spec()) == t.header_spec().record_length,
{
    lemma_fields_end_is_sum(t.fields_spec());
}

/// The first field of an open table starts right after the deletion mark,
/// and each other one where the field before it ends.
pub proof fn lemma_offsets_chain(t: &DbfReader)
    requires
        t.wf(),
    ensures
        t.fields_spec().len() > 0 ==> t.fields_spec()[0].offset == 1,
        forall|i: int|
            0 < i < t.fields_spec().len() ==> #[trigger] t.fields_spec()[i].offset
                == t.fields_spec()[i - 1].offset + t.fields_spec()[i - 1].length,
{
}

/// `r` is what reading the live record `rec` gives: its decoded values, or
/// the error of its first field that does not decode.
pub open spec fn record_outcome(
    fields: Seq<FieldInfo>,
    rec: Seq<u8>,
    memo: Option<&MemoReader>,
    r: Result<Vec<FieldValue>, DbfError>,
) -> bool {
    &&& r is Ok <==> record_decodes(fields, rec, memo)
    &&& r is Ok ==> record_values(fields, rec, memo, r->Ok_0@)
    &&& r is Err ==> r->Err_0 is FieldParse && record_error(fields, rec, memo, r->Err_0->FieldParse_0)
}

/// The memo reader inside an optional one, by reference.
pub open spec fn memo_ref(m: &Option<MemoReader>) -> Option<&MemoReader> {
    match m {
        Some(x) => Some(x),
        None => None,
    }
}

/// Copies the frame at `pos` of `data` into `buffer`, which keeps its length.
fn fill_frame(buffer: &mut Vec<u8>, data: &[u8], pos: usize)
    requires
        pos + old(buffer)@.len() <= data@.len(),
    ensures
        final(buffer)@ == data@.subrange(pos as int, pos + old(buffer)@.len()),
{
    let n = buffer.len();
    let dl = data.len();
    let mut i: usize = 0;
    while i < n
        invariant
            dl == data@.len(),
            n == buffer@.len(),
            n == old(buffer)@.len(),
            pos + n <= data@.len(),
            0 <= i <= n,
            forall|k: int| 0 <= k < i ==> buffer@[k] == data@[pos + k],
        decreases n - i,
    {
        buffer.set(i, data[pos + i]);
        i = i + 1;
    }
    assert(buffer@ =~= data@.subrange(pos as int, pos + n));
}

} // verus!
