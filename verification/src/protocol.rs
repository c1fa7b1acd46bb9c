//! On-the-wire layout of a command log, and proofs that the layout parses
//! back to what was framed.
//!
//! A log is a header — the command count as a u64, then the owning
//! module's id as a length-prefixed string — followed by one record per
//! command: the command id as a u64, the payload length as a u64, then
//! exactly that many payload bytes.

use crate::buffers::{dec_u64, enc_str, enc_u64, lemma_u64_round_trip, ByteOrder};
use vstd::prelude::*;

verus! {

/// One command of a log: its tag and its payload bytes.
pub ghost struct CommandRecord {
    /// The command id written ahead of the payload.
    pub id: u64,
    /// The payload bytes between this record's length field and the next
    /// record.
    pub payload: Seq<u8>,
}

/// A record whose payload length fits the wire's u64 length field.
pub open spec fn record_sized(r: CommandRecord) -> bool {
    r.payload.len() <= u64::MAX
}

/// Every record's payload length fits the wire's u64 length field.
pub open spec fn records_sized(rs: Seq<CommandRecord>) -> bool {
    forall|i: int| 0 <= i < rs.len() ==> record_sized(#[trigger] rs[i])
}

/// The bytes of one record: command id, payload length, payload.
pub open spec fn record_bytes(byte_order: ByteOrder, r: CommandRecord) -> Seq<u8> {
    enc_u64(byte_order, r.id) + enc_u64(byte_order, r.payload.len() as u64) + r.payload
}

/// The bytes of a sequence of records, in order.
pub open spec fn records_bytes(byte_order: ByteOrder, rs: Seq<CommandRecord>) -> Seq<u8>
    decreases rs.len(),
{
    if rs.len() == 0 {
        Seq::empty()
    } else {
        records_bytes(byte_order, rs.drop_last()) + record_bytes(byte_order, rs.last())
    }
}

/// The header: a command count and the owning module's id as a
/// length-prefixed string.
pub open spec fn header_bytes(byte_order: ByteOrder, count: u64, module_id: Seq<u8>) -> Seq<u8> {
    enc_u64(byte_order, count) + enc_str(byte_order, module_id)
}

/// Number of bytes the header occupies.
pub open spec fn header_len(module_id: Seq<u8>) -> int {
    16 + module_id.len() as int
}

/// The full log: header whose count is the number of records, then the
/// records in order.
pub open spec fn log_bytes(
    byte_order: ByteOrder,
    module_id: Seq<u8>,
    rs: Seq<CommandRecord>,
) -> Seq<u8> {
    header_bytes(byte_order, rs.len() as u64, module_id) + records_bytes(byte_order, rs)
}

/// Offset of record `k`'s id field within the log (for `k == rs.len()`,
/// the end of the log).
pub open spec fn record_start(
    byte_order: ByteOrder,
    module_id: Seq<u8>,
    rs: Seq<CommandRecord>,
    k: int,
) -> int {
    header_len(module_id) + records_bytes(byte_order, rs.take(k)).len()
}

/// A record occupies its two 8-byte fields plus its payload.
pub proof fn lemma_record_bytes_len(byte_order: ByteOrder, r: CommandRecord)
    ensures
        record_bytes(byte_order, r).len() == 16 + r.payload.len(),
{
    lemma_u64_round_trip(byte_order, r.id);
    lemma_u64_round_trip(byte_order, r.payload.len() as u64);
}

/// Appending one record appends its bytes.
pub proof fn lemma_records_bytes_push(
    byte_order: ByteOrder,
    rs: Seq<CommandRecord>,
    r: CommandRecord,
)
    ensures
        records_bytes(byte_order, rs.push(r)) == records_bytes(byte_order, rs) + record_bytes(
            byte_order,
            r,
        ),
{
    assert(rs.push(r).drop_last() =~= rs);
    assert(rs.push(r).last() == r);
}

/// The bytes of concatenated record sequences are the concatenated bytes.
pub proof fn lemma_records_bytes_concat(
    byte_order: ByteOrder,
    a: Seq<CommandRecord>,
    b: Seq<CommandRecord>,
)
    ensures
        records_bytes(byte_order, a + b) == records_bytes(byte_order, a) + records_bytes(
            byte_order,
            b,
        ),
    decreases b.len(),
{
    if b.len() == 0 {
        assert(a + b =~= a);
        assert(records_bytes(byte_order, a) + records_bytes(byte_order, Seq::empty()) =~= records_bytes(
            byte_order,
            a,
        ));
    } else {
        lemma_records_bytes_concat(byte_order, a, b.drop_last());
        assert((a + b).drop_last() =~= a + b.drop_last());
        assert((a + b).last() == b.last());
        assert(records_bytes(byte_order, a + b) =~= records_bytes(byte_order, a) + records_bytes(
            byte_order,
            b,
        ));
    }
}

/// A non-empty record sequence's bytes start with the first record's
/// bytes.
pub proof fn lemma_records_bytes_first(byte_order: ByteOrder, rs: Seq<CommandRecord>)
    requires
        rs.len() > 0,
    ensures
        records_bytes(byte_order, rs) == record_bytes(byte_order, rs[0]) + records_bytes(
            byte_order,
            rs.drop_first(),
        ),
{
    let head = seq![rs[0]];
    assert(rs =~= head + rs.drop_first());
    lemma_records_bytes_concat(byte_order, head, rs.drop_first());
    assert(head.drop_last() =~= Seq::<CommandRecord>::empty());
    assert(records_bytes(byte_order, Seq::<CommandRecord>::empty()) == Seq::<u8>::empty());
    assert(head.last() == rs[0]);
    assert(records_bytes(byte_order, head) =~= record_bytes(byte_order, rs[0]));
}

/// One more record extends the byte prefix by that record's bytes.
pub proof fn lemma_records_bytes_take_succ(byte_order: ByteOrder, rs: Seq<CommandRecord>, k: int)
    requires
        0 <= k < rs.len(),
    ensures
        records_bytes(byte_order, rs.take(k + 1)) == records_bytes(byte_order, rs.take(k))
            + record_bytes(byte_order, rs[k]),
{
    assert(rs.take(k + 1).drop_last() =~= rs.take(k));
    assert(rs.take(k + 1).last() == rs[k]);
}

/// Where record `k` and its fields lie inside a log's bytes.
#[verifier::rlimit(50)]
#[verifier::spinoff_prover]
pub proof fn lemma_record_at(
    byte_order: ByteOrder,
    module_id: Seq<u8>,
    rs: Seq<CommandRecord>,
    k: int,
)
    requires
        0 <= k < rs.len(),
        records_sized(rs),
    ensures
        record_start(byte_order, module_id, rs, k + 1) == record_start(byte_order, module_id, rs, k)
            + 16 + rs[k].payload.len(),
        record_start(byte_order, module_id, rs, k + 1) <= log_bytes(
            byte_order,
            module_id,
            rs,
        ).len(),
        log_bytes(byte_order, module_id, rs).subrange(
            record_start(byte_order, module_id, rs, k),
            record_start(byte_order, module_id, rs, k) + 8,
        ) == enc_u64(byte_order, rs[k].id),
        log_bytes(byte_order, module_id, rs).subrange(
            record_start(byte_order, module_id, rs, k) + 8,
            record_start(byte_order, module_id, rs, k) + 16,
        ) == enc_u64(byte_order, rs[k].payload.len() as u64),
        log_bytes(byte_order, module_id, rs).subrange(
            record_start(byte_order, module_id, rs, k) + 16,
            record_start(byte_order, module_id, rs, k) + 16 + rs[k].payload.len(),
        ) == rs[k].payload,
    decreases 0int,
{
    let s = log_bytes(byte_order, module_id, rs);
    let start = record_start(byte_order, module_id, rs, k);
    let hdr = header_bytes(byte_order, rs.len() as u64, module_id);
    lemma_u64_round_trip(byte_order, rs.len() as u64);
    lemma_u64_round_trip(byte_order, module_id.len() as u64);
    lemma_u64_round_trip(byte_order, rs[k].id);
    lemma_u64_round_trip(byte_order, rs[k].payload.len() as u64);
    assert(rs =~= rs.take(k) + rs.skip(k));
    lemma_records_bytes_concat(byte_order, rs.take(k), rs.skip(k));
    assert(rs.skip(k).len() > 0);
    lemma_records_bytes_first(byte_order, rs.skip(k));
    assert(rs.skip(k)[0] == rs[k]);
    assert(rs.skip(k).drop_first() =~= rs.skip(k + 1));
    lemma_records_bytes_take_succ(byte_order, rs, k);
    // s == hdr + records_bytes(take(k)) + record_bytes(rs[k]) + records_bytes(skip(k + 1))
    assert(s =~= hdr + records_bytes(byte_order, rs.take(k)) + record_bytes(byte_order, rs[k])
        + records_bytes(byte_order, rs.skip(k + 1)));
    assert(hdr.len() == header_len(module_id));
    lemma_record_bytes_len(byte_order, rs[k]);
    assert(s.subrange(start, start + 8) =~= enc_u64(byte_order, rs[k].id));
    assert(s.subrange(start + 8, start + 16) =~= enc_u64(
        byte_order,
        rs[k].payload.len() as u64,
    ));
    assert(s.subrange(start + 16, start + 16 + rs[k].payload.len()) =~= rs[k].payload);
}

/// The log's byte length is the position one past its last record.
pub proof fn lemma_log_len(byte_order: ByteOrder, module_id: Seq<u8>, rs: Seq<CommandRecord>)
    ensures
        log_bytes(byte_order, module_id, rs).len() == record_start(
            byte_order,
            module_id,
            rs,
            rs.len() as int,
        ),
        header_len(module_id) <= log_bytes(byte_order, module_id, rs).len(),
{
    lemma_u64_round_trip(byte_order, rs.len() as u64);
    lemma_u64_round_trip(byte_order, module_id.len() as u64);
    assert(rs.take(rs.len() as int) =~= rs);
}

/// Each record takes at least its two 8-byte fields, so a record sequence
/// never outnumbers a sixteenth of its bytes.
pub proof fn lemma_records_bytes_len_ge(byte_order: ByteOrder, rs: Seq<CommandRecord>)
    ensures
        records_bytes(byte_order, rs).len() >= 16 * rs.len(),
    decreases rs.len(),
{
    if rs.len() > 0 {
        lemma_records_bytes_len_ge(byte_order, rs.drop_last());
        lemma_record_bytes_len(byte_order, rs.last());
    }
}

/// Parse `n` records off the front of `s`, requiring `s` to be consumed
/// exactly.
pub open spec fn parse_records(byte_order: ByteOrder, s: Seq<u8>, n: nat) -> Option<
    Seq<CommandRecord>,
>
    decreases n,
{
    if n == 0 {
        if s.len() == 0 {
            Some(Seq::empty())
        } else {
            None
        }
    } else if s.len() < 16 {
        None
    } else {
        let id = dec_u64(byte_order, s.subrange(0, 8));
        let len = dec_u64(byte_order, s.subrange(8, 16));
        if s.len() < 16 + len {
            None
        } else {
            let payload = s.subrange(16, 16 + len);
            match parse_records(byte_order, s.skip(16 + len), (n - 1) as nat) {
                Some(rest) => Some(seq![CommandRecord { id, payload }] + rest),
                None => None,
            }
        }
    }
}

/// Parse a whole log: the header, then exactly as many records as the
/// header's count field declares.
pub open spec fn parse_log(byte_order: ByteOrder, s: Seq<u8>) -> Option<
    (Seq<u8>, Seq<CommandRecord>),
> {
    if s.len() < 16 {
        None
    } else {
        let count = dec_u64(byte_order, s.subrange(0, 8));
        let mid_len = dec_u64(byte_order, s.subrange(8, 16));
        if s.len() < 16 + mid_len {
            None
        } else {
            let module_id = s.subrange(16, 16 + mid_len);
            match parse_records(byte_order, s.skip(16 + mid_len), count as nat) {
                Some(rs) => Some((module_id, rs)),
                None => None,
            }
        }
    }
}

/// The module id a parseable log declares.
pub open spec fn parsed_module_id(byte_order: ByteOrder, s: Seq<u8>) -> Seq<u8>
    recommends
        parse_log(byte_order, s) is Some,
{
    parse_log(byte_order, s)->Some_0.0
}

/// The records a parseable log holds, in order.
pub open spec fn parsed_records(byte_order: ByteOrder, s: Seq<u8>) -> Seq<CommandRecord>
    recommends
        parse_log(byte_order, s) is Some,
{
    parse_log(byte_order, s)->Some_0.1
}

/// Record starts lie within the log.
pub proof fn lemma_record_start_bounds(
    byte_order: ByteOrder,
    module_id: Seq<u8>,
    rs: Seq<CommandRecord>,
    k: int,
)
    requires
        0 <= k <= rs.len(),
    ensures
        header_len(module_id) <= record_start(byte_order, module_id, rs, k) <= log_bytes(
            byte_order,
            module_id,
            rs,
        ).len(),
{
    lemma_log_len(byte_order, module_id, rs);
    assert(rs.take(rs.len() as int) =~= rs);
    assert(rs =~= rs.take(k) + rs.skip(k));
    lemma_records_bytes_concat(byte_order, rs.take(k), rs.skip(k));
    assert(records_bytes(byte_order, rs).len() == records_bytes(byte_order, rs.take(k)).len()
        + records_bytes(byte_order, rs.skip(k)).len());
}

/// What `parse_records` accepts is exactly what `records_bytes` frames:
/// a successful parse of `n` records means the bytes are those records'
/// bytes.
pub proof fn lemma_parse_records_complete(byte_order: ByteOrder, s: Seq<u8>, n: nat)
    requires
        parse_records(byte_order, s, n) is Some,
    ensures
        ({
            let rs = parse_records(byte_order, s, n)->Some_0;
            &&& rs.len() == n
            &&& records_sized(rs)
            &&& records_bytes(byte_order, rs) == s
        }),
    decreases n,
{
    let rs = parse_records(byte_order, s, n)->Some_0;
    if n == 0 {
        assert(records_bytes(byte_order, rs) =~= s);
    } else {
        let id = dec_u64(byte_order, s.subrange(0, 8));
        let len = dec_u64(byte_order, s.subrange(8, 16));
        let payload = s.subrange(16, 16 + len);
        let tail = s.skip(16 + len);
        let rest = parse_records(byte_order, tail, (n - 1) as nat)->Some_0;
        lemma_parse_records_complete(byte_order, tail, (n - 1) as nat);
        let head = CommandRecord { id, payload };
        assert(rs == seq![head] + rest);
        assert(rs[0] == head);
        assert(rs.drop_first() =~= rest);
        lemma_records_bytes_first(byte_order, rs);
        crate::buffers::lemma_dec_enc_u64(byte_order, s.subrange(0, 8));
        crate::buffers::lemma_dec_enc_u64(byte_order, s.subrange(8, 16));
        assert(payload.len() == len);
        assert(enc_u64(byte_order, payload.len() as u64) == s.subrange(8, 16));
        assert(record_bytes(byte_order, head) =~= s.subrange(0, 16 + len));
        assert(records_bytes(byte_order, rs) =~= s);
        assert(records_sized(rs)) by {
            assert(forall|i: int|
                1 <= i < rs.len() ==> #[trigger] rs[i] == rest[i - 1] && record_sized(
                    rest[i - 1],
                ));
        }
    }
}

/// What `parse_log` accepts is exactly what `log_bytes` frames: a
/// successful parse means the bytes are the parsed log's bytes.
pub proof fn lemma_parse_log_complete(byte_order: ByteOrder, s: Seq<u8>)
    requires
        parse_log(byte_order, s) is Some,
    ensures
        ({
            let module_id = parsed_module_id(byte_order, s);
            let rs = parsed_records(byte_order, s);
            &&& module_id.len() <= u64::MAX
            &&& rs.len() <= u64::MAX
            &&& records_sized(rs)
            &&& s == log_bytes(byte_order, module_id, rs)
        }),
{
    let module_id = parsed_module_id(byte_order, s);
    let rs = parsed_records(byte_order, s);
    let count = dec_u64(byte_order, s.subrange(0, 8));
    let mid_len = dec_u64(byte_order, s.subrange(8, 16));
    let tail = s.skip(16 + mid_len);
    lemma_parse_records_complete(byte_order, tail, count as nat);
    crate::buffers::lemma_dec_enc_u64(byte_order, s.subrange(0, 8));
    crate::buffers::lemma_dec_enc_u64(byte_order, s.subrange(8, 16));
    assert(rs.len() == count);
    assert(enc_u64(byte_order, rs.len() as u64) == s.subrange(0, 8));
    assert(module_id.len() == mid_len);
    assert(enc_u64(byte_order, module_id.len() as u64) == s.subrange(8, 16));
    assert(s =~= log_bytes(byte_order, module_id, rs));
}

/// The bytes of any record sequence parse back to exactly that sequence.
pub proof fn lemma_parse_records_round_trip(byte_order: ByteOrder, rs: Seq<CommandRecord>)
    requires
        records_sized(rs),
    ensures
        parse_records(byte_order, records_bytes(byte_order, rs), rs.len()) == Some(rs),
    decreases rs.len(),
{
    let s = records_bytes(byte_order, rs);
    if rs.len() == 0 {
        assert(s.len() == 0);
        assert(Seq::<CommandRecord>::empty() =~= rs);
    } else {
        let r0 = rs[0];
        let rest = rs.drop_first();
        lemma_records_bytes_first(byte_order, rs);
        lemma_u64_round_trip(byte_order, r0.id);
        lemma_u64_round_trip(byte_order, r0.payload.len() as u64);
        lemma_record_bytes_len(byte_order, r0);
        assert(s.subrange(0, 8) =~= enc_u64(byte_order, r0.id));
        assert(s.subrange(8, 16) =~= enc_u64(byte_order, r0.payload.len() as u64));
        assert(s.subrange(16, 16 + r0.payload.len() as int) =~= r0.payload);
        assert(s.skip(16 + r0.payload.len() as int) =~= records_bytes(byte_order, rest));
        assert(records_sized(rest)) by {
            assert(forall|i: int|
                0 <= i < rest.len() ==> #[trigger] rest[i] == rs[i + 1] && record_sized(rs[i + 1]));
        }
        lemma_parse_records_round_trip(byte_order, rest);
        assert(seq![CommandRecord { id: r0.id, payload: r0.payload }] + rest =~= rs);
        assert(CommandRecord { id: r0.id, payload: r0.payload } == r0);
    }
}

/// Round-trip framing: the bytes of a log assembled from any module id
/// and any record sequence parse back to exactly that module id and those
/// records, in order.
pub proof fn lemma_log_round_trip(
    byte_order: ByteOrder,
    module_id: Seq<u8>,
    rs: Seq<CommandRecord>,
)
    requires
        module_id.len() <= u64::MAX,
        rs.len() <= u64::MAX,
        records_sized(rs),
    ensures
        parse_log(byte_order, log_bytes(byte_order, module_id, rs)) == Some((module_id, rs)),
{
    let s = log_bytes(byte_order, module_id, rs);
    lemma_u64_round_trip(byte_order, rs.len() as u64);
    lemma_u64_round_trip(byte_order, module_id.len() as u64);
    assert(s.subrange(0, 8) =~= enc_u64(byte_order, rs.len() as u64));
    assert(s.subrange(8, 16) =~= enc_u64(byte_order, module_id.len() as u64));
    assert(s.subrange(16, 16 + module_id.len() as int) =~= module_id);
    assert(s.skip(16 + module_id.len() as int) =~= records_bytes(byte_order, rs));
    lemma_parse_records_round_trip(byte_order, rs);
}

} // verus!
