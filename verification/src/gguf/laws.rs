//! What holds of writer and reader together.

use crate::gguf::format::{
    dec_all, dec_file, dec_kv, dec_le, dec_str, enc_all, pad_after, tensor_of, ErrorView, Field,
    ReaderView, TensorView,
};
use crate::gguf::reader::{dec_all_enc, lookup, tensor_data_spec, ReaderTensor};
use crate::gguf::writer::{
    data_size, data_size_next, distinct_keys, entries, entry, header_body, header_bytes,
    header_start, InfoView, WriterView,
};
use crate::gguf::{
    migrated, padded, padded_bounds, padded_fixed, Value, ValueView, ALIGNMENT, FTYPE_MIGRATIONS,
    GGUF_MAGIC, GGUF_VERSION, TYPE_CODE_MIGRATIONS, V_ARRAY, V_STRING,
};
use crate::le::{
    le_bytes, le_bytes_len, le_round_trip, le_value_bound, pow256, pow256_values,
};
use vstd::prelude::*;
use vstd::utf8::valid_utf8;

verus! {

/// Whether a declared tensor can be read back: its type is known and its
/// declared size is the one that follows from type and shape.
pub open spec fn readable(t: InfoView) -> bool {
    &&& String::valid(t.name)
    &&& t.shape.len() <= u32::MAX
    &&& tensor_of(t.name, t.shape.reverse(), t.dtype, 0) matches Ok(v) && v.nbytes == t.nbytes
}

/// Whether what was declared to a writer can be read back.
pub open spec fn readable_header(
    kvs: Seq<(Seq<char>, ValueView)>,
    tensors: Seq<InfoView>,
) -> bool {
    &&& kvs.len() <= u64::MAX
    &&& tensors.len() <= u64::MAX
    &&& data_size(tensors) <= u64::MAX
    &&& forall|i: int| 0 <= i < kvs.len() ==> <(String, Value)>::valid(#[trigger] kvs[i])
    &&& forall|i: int| 0 <= i < tensors.len() ==> readable(#[trigger] tensors[i])
}

/// What a reader makes of a header: the metadata and the tensors as they were
/// declared, the data section right behind the header.
pub open spec fn as_declared(
    kvs: Seq<(Seq<char>, ValueView)>,
    tensors: Seq<InfoView>,
) -> ReaderView {
    ReaderView { kvs, tensors: entries(tensors), data_start: header_bytes(kvs, tensors).len() }
}

/// Reading back what a writer wrote gives the metadata and the tensors that
/// were declared, in their order, whatever follows the header.
#[verifier::spinoff_prover]
#[verifier::rlimit(40)]
pub proof fn header_reads_back(
    kvs: Seq<(Seq<char>, ValueView)>,
    tensors: Seq<InfoView>,
    rest: Seq<u8>,
)
    requires
        readable_header(kvs, tensors),
    ensures
        dec_file(header_bytes(kvs, tensors) + rest) == Ok::<_, ErrorView>(
            as_declared(kvs, tensors),
        ),
{
    let body = header_body(kvs, tensors);
    let b = header_bytes(kvs, tensors) + rest;
    let start = header_start(tensors.len(), kvs.len());
    let all = entries(tensors);
    let ekv = enc_all::<(String, Value)>(kvs);
    let ets = enc_all::<ReaderTensor>(all);
    le_bytes_len(GGUF_MAGIC as nat, 4);
    le_bytes_len(GGUF_VERSION as nat, 4);
    le_bytes_len(tensors.len(), 8);
    le_bytes_len(kvs.len(), 8);
    pow256_values();
    le_round_trip(GGUF_MAGIC as nat, 4);
    le_round_trip(GGUF_VERSION as nat, 4);
    le_round_trip(tensors.len(), 8);
    le_round_trip(kvs.len(), 8);
    assert(b.subrange(0, 4) =~= le_bytes(GGUF_MAGIC as nat, 4));
    assert(b.subrange(4, 8) =~= le_bytes(GGUF_VERSION as nat, 4));
    assert(b.subrange(8, 16) =~= le_bytes(tensors.len(), 8));
    assert(b.subrange(16, 24) =~= le_bytes(kvs.len(), 8));
    assert(start.len() == 24);
    assert(b.subrange(24, 24 + ekv.len() as int) =~= ekv);
    let q = 24 + ekv.len();
    assert(b.subrange(q as int, (q + ets.len()) as int) =~= ets);
    dec_all_enc::<(String, Value)>(b, 24, kvs);
    assert forall|i: int| 0 <= i < all.len() implies ReaderTensor::valid(#[trigger] all[i]) by {
        assert(readable(tensors[i]));
        data_size_next(tensors, i);
    }
    dec_all_enc::<ReaderTensor>(b, q as int, all);
    padded_bounds(body.len(), ALIGNMENT as nat);
    assert(body.len() == q + ets.len());
}

/// Whether a tensor's type and size are those that follow from its stored type
/// code and its shape.
pub open spec fn sized(t: TensorView) -> bool {
    tensor_of(t.name, t.dims, t.dtype_orig, t.offset) == Ok::<_, ErrorView>(t)
}

/// As many items are read as were to be read.
proof fn read_count<T: Field>(b: Seq<u8>, pos: int, n: nat)
    ensures
        dec_all::<T>(b, pos, n) matches Ok((ms, _)) ==> ms.len() == n,
    decreases n,
{
    if n > 0 {
        if let Ok((_, p)) = T::dec(b, pos) {
            read_count::<T>(b, p, (n - 1) as nat);
        }
    }
}

/// A number of `n` bytes that is read has room in `n` bytes.
proof fn read_number(b: Seq<u8>, pos: int, n: nat)
    requires
        0 <= pos,
    ensures
        dec_le(b, pos, n) matches Ok((x, _)) ==> x < pow256(n),
{
    if pos + n <= b.len() {
        le_value_bound(b.subrange(pos, pos + n));
    }
}

/// A text that is read can be written.
proof fn read_text_is_valid(b: Seq<u8>, pos: int)
    requires
        0 <= pos,
    ensures
        dec_str(b, pos) matches Ok((s, _)) ==> String::valid(s),
{
    read_number(b, pos, 8);
    pow256_values();
    if let Ok((n, p)) = dec_le(b, pos, 8) {
        if p + n <= b.len() && valid_utf8(b.subrange(p, p + n)) {
            vstd::utf8::decode_utf8_encode_utf8(b.subrange(p, p + n));
        }
    }
}

/// Texts that are read can be written.
proof fn read_texts_are_valid(b: Seq<u8>, pos: int, n: nat)
    requires
        0 <= pos <= b.len(),
    ensures
        dec_all::<String>(b, pos, n) matches Ok((ss, _)) ==> forall|i: int|
            0 <= i < ss.len() ==> String::valid(#[trigger] ss[i]),
    decreases n,
{
    if n > 0 {
        read_text_is_valid(b, pos);
        String::dec_within(b, pos);
        if let Ok((s, p)) = String::dec(b, pos) {
            read_texts_are_valid(b, p, (n - 1) as nat);
        }
    }
}

/// A metadata pair that is read can be written.
proof fn read_pair_is_valid(b: Seq<u8>, pos: int)
    requires
        0 <= pos <= b.len(),
    ensures
        dec_kv(b, pos) matches Ok((kv, _)) ==> <(String, Value)>::valid(kv),
{
    read_text_is_valid(b, pos);
    String::dec_within(b, pos);
    if let Ok((key, p)) = dec_str(b, pos) {
        if let Ok((t, q)) = dec_le(b, p, 4) {
            if t == V_STRING {
                read_text_is_valid(b, q);
            } else if t == V_ARRAY {
                if let Ok((et, r)) = dec_le(b, q, 4) {
                    read_number(b, r, 8);
                    pow256_values();
                    if let Ok((n, u)) = dec_le(b, r, 8) {
                        read_texts_are_valid(b, u, n);
                        read_count::<String>(b, u, n);
                        read_count::<i32>(b, u, n);
                        read_count::<u32>(b, u, n);
                        read_count::<bool>(b, u, n);
                        read_count::<u8>(b, u, n);
                        read_count::<i8>(b, u, n);
                        read_count::<u16>(b, u, n);
                        read_count::<i16>(b, u, n);
                        read_count::<u64>(b, u, n);
                        read_count::<i64>(b, u, n);
                    }
                }
            }
        }
    }
}

/// Metadata that are read can be written.
proof fn read_pairs_are_valid(b: Seq<u8>, pos: int, n: nat)
    requires
        0 <= pos <= b.len(),
    ensures
        dec_all::<(String, Value)>(b, pos, n) matches Ok((kvs, p)) ==> 0 <= p <= b.len()
            && forall|i: int|
            0 <= i < kvs.len() ==> <(String, Value)>::valid(#[trigger] kvs[i]),
    decreases n,
{
    if n > 0 {
        read_pair_is_valid(b, pos);
        <(String, Value)>::dec_within(b, pos);
        if let Ok((kv, p)) = <(String, Value)>::dec(b, pos) {
            read_pairs_are_valid(b, p, (n - 1) as nat);
        }
    }
}

/// Tensor entries that are read can be written.
proof fn read_entries_are_valid(b: Seq<u8>, pos: int, n: nat)
    requires
        0 <= pos <= b.len(),
    ensures
        dec_all::<ReaderTensor>(b, pos, n) matches Ok((ts, _)) ==> forall|i: int|
            0 <= i < ts.len() ==> ReaderTensor::valid(#[trigger] ts[i]),
    decreases n,
{
    if n > 0 {
        read_text_is_valid(b, pos);
        String::dec_within(b, pos);
        ReaderTensor::dec_within(b, pos);
        pow256_values();
        if let Ok((t, p)) = ReaderTensor::dec(b, pos) {
            let (_, p1) = dec_str(b, pos)->Ok_0;
            read_number(b, p1, 4);
            let (k, p2) = dec_le(b, p1, 4)->Ok_0;
            read_count::<u64>(b, p2, k);
            read_entries_are_valid(b, p, (n - 1) as nat);
        }
    }
}

/// Whether what a file's header says can be written.
pub open spec fn writable(r: ReaderView) -> bool {
    &&& r.kvs.len() <= u64::MAX
    &&& r.tensors.len() <= u64::MAX
    &&& forall|i: int| 0 <= i < r.kvs.len() ==> <(String, Value)>::valid(#[trigger] r.kvs[i])
    &&& forall|i: int| 0 <= i < r.tensors.len() ==> ReaderTensor::valid(#[trigger] r.tensors[i])
}

/// What is read from a file can be written: every text and list has a length
/// that can be stored, and every tensor has the size that follows from its
/// type and shape.
pub proof fn read_is_writable(b: Seq<u8>)
    requires
        dec_file(b) is Ok,
    ensures
        writable(dec_file(b)->Ok_0),
{
    let (n_tensors, _) = dec_le(b, 8, 8)->Ok_0;
    let (n_kv, p) = dec_le(b, 16, 8)->Ok_0;
    let (_, q) = dec_all::<(String, Value)>(b, p, n_kv)->Ok_0;
    read_number(b, 8, 8);
    read_number(b, 16, 8);
    pow256_values();
    read_pairs_are_valid(b, p, n_kv);
    read_entries_are_valid(b, q, n_tensors);
    read_count::<(String, Value)>(b, p, n_kv);
    read_count::<ReaderTensor>(b, q, n_tensors);
}

/// Every tensor that is read from a file has the size that follows from its
/// type and shape.
pub proof fn tensors_are_sized(b: Seq<u8>, i: int)
    requires
        dec_file(b) is Ok,
        0 <= i < dec_file(b)->Ok_0.tensors.len(),
    ensures
        sized(dec_file(b)->Ok_0.tensors[i]),
{
    read_is_writable(b);
}

/// The data section: each tensor's data, padded to the alignment.
pub open spec fn data_section(datas: Seq<Seq<u8>>) -> Seq<u8>
    decreases datas.len(),
{
    if datas.len() == 0 {
        Seq::empty()
    } else {
        data_section(datas.drop_last()) + datas.last() + pad_after(datas.last().len())
    }
}

/// Whether the data fit the declarations.
pub open spec fn data_fits(tensors: Seq<InfoView>, datas: Seq<Seq<u8>>) -> bool {
    &&& datas.len() == tensors.len()
    &&& forall|i: int|
        0 <= i < datas.len() ==> (#[trigger] datas[i]).len() == tensors[i].nbytes
}

/// A whole file: header, then data section.
pub open spec fn file_bytes(
    kvs: Seq<(Seq<char>, ValueView)>,
    tensors: Seq<InfoView>,
    datas: Seq<Seq<u8>>,
) -> Seq<u8> {
    header_bytes(kvs, tensors) + data_section(datas)
}

/// The data section is as long as the declared sizes say, and each tensor's
/// data stand at its offset.
pub proof fn data_at_offset(tensors: Seq<InfoView>, datas: Seq<Seq<u8>>, i: int)
    requires
        data_fits(tensors, datas),
        0 <= i < datas.len(),
    ensures
        data_section(datas).len() == data_size(tensors),
        data_size(tensors.take(i)) + datas[i].len() <= data_size(tensors),
        data_section(datas).subrange(
            data_size(tensors.take(i)) as int,
            (data_size(tensors.take(i)) + datas[i].len()) as int,
        ) == datas[i],
    decreases datas.len(),
{
    let n = datas.len() - 1;
    let before = data_section(datas.drop_last());
    data_section_len(tensors, datas);
    data_section_len(tensors.drop_last(), datas.drop_last());
    padded_bounds(datas.last().len(), ALIGNMENT as nat);
    if i == n {
        assert(tensors.take(i) =~= tensors.drop_last());
        assert(data_section(datas).subrange(
            before.len() as int,
            (before.len() + datas.last().len()) as int,
        ) =~= datas.last());
    } else {
        let ts = tensors.drop_last();
        let ds = datas.drop_last();
        assert forall|j: int| 0 <= j < ds.len() implies (#[trigger] ds[j]).len()
            == ts[j].nbytes by {
            assert(ds[j] == datas[j]);
        }
        data_at_offset(ts, ds, i);
        assert(ts.take(i) =~= tensors.take(i));
        let a = data_size(tensors.take(i)) as int;
        assert(data_section(datas).subrange(a, a + datas[i].len()) =~= before.subrange(
            a,
            a + datas[i].len(),
        ));
    }
}

/// The data section is as long as the declared sizes say.
pub proof fn data_section_len(tensors: Seq<InfoView>, datas: Seq<Seq<u8>>)
    requires
        data_fits(tensors, datas),
    ensures
        data_section(datas).len() == data_size(tensors),
    decreases datas.len(),
{
    if datas.len() > 0 {
        let ds = datas.drop_last();
        let ts = tensors.drop_last();
        assert forall|j: int| 0 <= j < ds.len() implies (#[trigger] ds[j]).len()
            == ts[j].nbytes by {
            assert(ds[j] == datas[j]);
        }
        data_section_len(ts, ds);
        assert(datas.last().len() == tensors.last().nbytes);
        padded_bounds(datas.last().len(), ALIGNMENT as nat);
    }
}

/// The data of the first tensors stand in front of the data section.
proof fn data_in_front(datas: Seq<Seq<u8>>, k: int)
    requires
        0 <= k <= datas.len(),
    ensures
        data_section(datas.take(k)).len() <= data_section(datas).len(),
        data_section(datas).take(data_section(datas.take(k)).len() as int) == data_section(
            datas.take(k),
        ),
    decreases datas.len(),
{
    if k < datas.len() {
        let ds = datas.drop_last();
        data_in_front(ds, k);
        assert(ds.take(k) =~= datas.take(k));
        let n = data_section(datas.take(k)).len() as int;
        assert(data_section(datas).take(n) =~= data_section(ds).take(n));
    } else {
        assert(datas.take(k) =~= datas);
        let n = data_section(datas).len() as int;
        assert(data_section(datas).take(n) =~= data_section(datas));
    }
}

/// Behind whatever stands before the data section, a tensor's data stand at
/// its offset where they and those before them have the declared sizes.
proof fn data_behind(head: Seq<u8>, tensors: Seq<InfoView>, datas: Seq<Seq<u8>>, i: int)
    requires
        datas.len() <= tensors.len(),
        data_size(tensors) <= u64::MAX,
        0 <= i < datas.len(),
        forall|j: int| 0 <= j <= i ==> (#[trigger] datas[j]).len() == tensors[j].nbytes,
    ensures
        ({
            let a = head.len() + data_size(tensors.take(i));
            let file = head + data_section(datas);
            &&& a + tensors[i].nbytes <= file.len()
            &&& file.subrange(a as int, a + tensors[i].nbytes) == datas[i]
            &&& data_size(tensors.take(i)) <= u64::MAX
        }),
{
    let ts = tensors.take(i + 1);
    let ds = datas.take(i + 1);
    assert forall|j: int| 0 <= j < ds.len() implies (#[trigger] ds[j]).len() == ts[j].nbytes by {
        assert(ds[j] == datas[j]);
    }
    data_at_offset(ts, ds, i);
    data_in_front(datas, i + 1);
    data_size_next(tensors, i);
    assert(ts.take(i) =~= tensors.take(i));
    let a = data_size(tensors.take(i)) as int;
    let n = datas[i].len() as int;
    let front = data_section(ds);
    let file = head + data_section(datas);
    assert(data_section(datas).take(front.len() as int).subrange(a, a + n) =~= data_section(
        datas,
    ).subrange(a, a + n));
    assert(file.subrange(head.len() + a, head.len() + a + n) =~= data_section(datas).subrange(
        a,
        a + n,
    ));
}

/// A tensor's data stand where its entry says, where they and those before
/// them have the declared sizes.
pub proof fn declared_data(
    kvs: Seq<(Seq<char>, ValueView)>,
    tensors: Seq<InfoView>,
    datas: Seq<Seq<u8>>,
    i: int,
)
    requires
        datas.len() <= tensors.len(),
        data_size(tensors) <= u64::MAX,
        0 <= i < datas.len(),
        forall|j: int| 0 <= j <= i ==> (#[trigger] datas[j]).len() == tensors[j].nbytes,
    ensures
        tensor_data_spec(
            file_bytes(kvs, tensors, datas),
            as_declared(kvs, tensors),
            entries(tensors)[i],
        ) == Ok::<_, ErrorView>(datas[i]),
{
    data_behind(header_bytes(kvs, tensors), tensors, datas, i);
    assert(entries(tensors)[i] == entry(tensors, i));
    if tensors[i].nbytes == 0 {
        assert(datas[i] =~= Seq::empty());
    }
}

/// Reading back a whole file gives what was declared, and for every tensor
/// the data that were written for it.
pub proof fn file_reads_back(
    kvs: Seq<(Seq<char>, ValueView)>,
    tensors: Seq<InfoView>,
    datas: Seq<Seq<u8>>,
)
    requires
        readable_header(kvs, tensors),
        data_fits(tensors, datas),
    ensures
        dec_file(file_bytes(kvs, tensors, datas)) == Ok::<_, ErrorView>(
            as_declared(kvs, tensors),
        ),
        forall|i: int|
            0 <= i < datas.len() ==> tensor_data_spec(
                file_bytes(kvs, tensors, datas),
                as_declared(kvs, tensors),
                #[trigger] entries(tensors)[i],
            ) == Ok::<_, ErrorView>(datas[i]),
{
    header_reads_back(kvs, tensors, data_section(datas));
    assert forall|i: int| 0 <= i < datas.len() implies tensor_data_spec(
        file_bytes(kvs, tensors, datas),
        as_declared(kvs, tensors),
        #[trigger] entries(tensors)[i],
    ) == Ok::<_, ErrorView>(datas[i]) by {
        declared_data(kvs, tensors, datas, i);
    }
}

/// A writer that has written `datas` as its next tensors, one call each.
pub open spec fn wrote_all(w: WriterView, datas: Seq<Seq<u8>>) -> WriterView
    decreases datas.len(),
{
    if datas.len() == 0 {
        w
    } else {
        wrote_all(w, datas.drop_last()).wrote_tensor(datas.last())
    }
}

/// A writer that writes its header and then the data of all its tensors has
/// written the whole file, and may then be finished.
pub proof fn writer_writes_file(w: WriterView, datas: Seq<Seq<u8>>)
    requires
        w.wf(),
        !w.header_written,
        data_size(w.tensors) <= u64::MAX,
        data_fits(w.tensors, datas),
    ensures
        wrote_all(w.headed(), datas) == (WriterView {
            out: w.out + file_bytes(w.kvs, w.tensors, datas),
            header_written: true,
            data_pos: data_size(w.tensors) as u64,
            next_tensor: w.tensors.len(),
            ..w
        }),
{
    let h = w.headed();
    wrote_prefix(h, datas, datas.len() as int);
    assert(datas.take(datas.len() as int) =~= datas);
    assert(w.tensors.take(datas.len() as int) =~= w.tensors);
    assert(h.out + data_section(datas) =~= w.out + file_bytes(w.kvs, w.tensors, datas));
}

/// The state behind the first `k` tensors.
proof fn wrote_prefix(h: WriterView, datas: Seq<Seq<u8>>, k: int)
    requires
        0 <= k <= datas.len(),
        data_size(h.tensors) <= u64::MAX,
        data_fits(h.tensors, datas),
        h.data_pos == 0,
        h.next_tensor == 0,
    ensures
        wrote_all(h, datas.take(k)) == (WriterView {
            out: h.out + data_section(datas.take(k)),
            data_pos: data_size(h.tensors.take(k)) as u64,
            next_tensor: k as nat,
            ..h
        }),
        data_size(h.tensors.take(k)) % (ALIGNMENT as nat) == 0,
        data_size(h.tensors.take(k)) <= u64::MAX,
    decreases k,
{
    if k == 0 {
        assert(h.tensors.take(0) =~= Seq::empty());
        assert(datas.take(0) =~= Seq::empty());
        assert(h.out + data_section(datas.take(0)) =~= h.out);
    } else {
        wrote_prefix(h, datas, k - 1);
        assert(datas.take(k).drop_last() =~= datas.take(k - 1));
        assert(datas.take(k).last() == datas[k - 1]);
        data_size_next(h.tensors, k - 1);
        let before = data_size(h.tensors.take(k - 1));
        let len = datas[k - 1].len();
        padded_shift(before, len);
        padded_bounds(len, ALIGNMENT as nat);
        padded_bounds((before + len) as nat, ALIGNMENT as nat);
        let v = wrote_all(h, datas.take(k - 1));
        assert(v.wrote(datas[k - 1]).data_pos == before + len);
        assert(pad_after((before + len) as nat) =~= pad_after(len));
        assert(h.out + data_section(datas.take(k - 1)) + datas[k - 1] + pad_after(len) =~= h.out
            + data_section(datas.take(k)));
    }
}

/// Padding commutes with multiples of the alignment.
pub proof fn padded_shift(base: nat, len: nat)
    requires
        base % (ALIGNMENT as nat) == 0,
    ensures
        padded(base + len, ALIGNMENT as nat) == base + padded(len, ALIGNMENT as nat),
        (base + padded(len, ALIGNMENT as nat)) % (ALIGNMENT as nat) == 0,
{
    padded_bounds(len, ALIGNMENT as nat);
    padded_bounds(base + len, ALIGNMENT as nat);
}

/// Pieces written one after another leave the writer where writing what they
/// make together does.
proof fn chunks_add_up(w: WriterView, chunks: Seq<Seq<u8>>)
    requires
        w.data_pos + chunks.flatten().len() <= u64::MAX,
    ensures
        w.wrote_all(chunks) == w.wrote(chunks.flatten()),
    decreases chunks.len(),
{
    if chunks.len() == 0 {
        assert(w.out + Seq::<u8>::empty() =~= w.out);
    } else {
        let a = chunks[0];
        let rest = chunks.drop_first();
        let b = rest.flatten();
        assert(chunks.flatten() == a + b);
        chunks_add_up(w.wrote(a), rest);
        assert(w.out + a + b =~= w.out + (a + b));
    }
}

/// Streaming the next tensor in pieces leaves the writer where writing it at
/// once does. Each step of it can be taken where writing it at once can.
pub proof fn chunks_write_the_same(w: WriterView, chunks: Seq<Seq<u8>>)
    requires
        w.wf(),
        w.header_written,
        w.next_tensor < w.tensors.len(),
        chunks.flatten().len() == w.tensors[w.next_tensor as int].nbytes,
        padded(w.data_pos as nat + chunks.flatten().len(), ALIGNMENT as nat) <= u64::MAX,
    ensures
        w.begun().wrote_all(chunks).aligned() == w.wrote_tensor(chunks.flatten()),
        forall|k: int|
            0 <= k < chunks.len() ==> {
                let before = #[trigger] w.begun().wrote_all(chunks.take(k));
                &&& before.wf()
                &&& before.header_written
                &&& before.data_pos + chunks[k].len() <= u64::MAX
            },
        padded(w.begun().wrote_all(chunks).data_pos as nat, ALIGNMENT as nat) <= u64::MAX,
{
    let all = chunks.flatten();
    padded_bounds(w.data_pos as nat + all.len(), ALIGNMENT as nat);
    chunks_add_up(w.begun(), chunks);
    assert forall|k: int| 0 <= k < chunks.len() implies {
        let before = #[trigger] w.begun().wrote_all(chunks.take(k));
        &&& before.wf()
        &&& before.header_written
        &&& before.data_pos + chunks[k].len() <= u64::MAX
    } by {
        front_is_shorter(chunks, k);
        chunks_add_up(w.begun(), chunks.take(k));
    }
}

/// The first pieces and the next one are no longer than all.
proof fn front_is_shorter(chunks: Seq<Seq<u8>>, k: int)
    requires
        0 <= k < chunks.len(),
    ensures
        chunks.take(k).flatten().len() + chunks[k].len() <= chunks.flatten().len(),
    decreases k,
{
    if k > 0 {
        let rest = chunks.drop_first();
        front_is_shorter(rest, k - 1);
        assert(chunks.take(k).drop_first() =~= rest.take(k - 1));
        assert(chunks.take(k)[0] == chunks[0]);
    }
}

/// With no key twice, looking a key up gives the value declared under it.
pub proof fn lookup_finds(kvs: Seq<(Seq<char>, ValueView)>, i: int)
    requires
        distinct_keys(kvs),
        0 <= i < kvs.len(),
    ensures
        lookup(kvs, kvs[i].0) == Some(kvs[i].1),
    decreases kvs.len(),
{
    if i > 0 {
        assert(kvs[0].0 != kvs[i].0);
        let rest = kvs.drop_first();
        assert forall|a: int, b: int| 0 <= a < b < rest.len() implies (#[trigger] rest[a]).0 != (
        #[trigger] rest[b]).0 by {
            assert(rest[a] == kvs[a + 1]);
            assert(rest[b] == kvs[b + 1]);
        }
        lookup_finds(rest, i - 1);
        assert(rest[i - 1] == kvs[i]);
    }
}

/// An entry of a list with no key twice is found under its key.
pub proof fn entry_is_found(kvs: Seq<(Seq<char>, ValueView)>, kv: (Seq<char>, ValueView))
    requires
        distinct_keys(kvs),
        kvs.contains(kv),
    ensures
        lookup(kvs, kv.0) == Some(kv.1),
{
    let i = choose|i: int| 0 <= i < kvs.len() && kvs[i] == kv;
    lookup_finds(kvs, i);
}

/// A resolved type code is current: resolving it again changes nothing. The
/// same holds of file types.
pub proof fn resolved_codes_stay(code: u32)
    ensures
        migrated(TYPE_CODE_MIGRATIONS@, migrated(TYPE_CODE_MIGRATIONS@, code)) == migrated(
            TYPE_CODE_MIGRATIONS@,
            code,
        ),
        migrated(FTYPE_MIGRATIONS@, migrated(FTYPE_MIGRATIONS@, code)) == migrated(
            FTYPE_MIGRATIONS@,
            code,
        ),
{
    reveal_with_fuel(migrated, 2);
    assert(TYPE_CODE_MIGRATIONS@.drop_first().len() == 0);
    assert(FTYPE_MIGRATIONS@.drop_first().len() == 0);
}

/// Padding reaches a multiple of the alignment, is no shorter, adds less than
/// the alignment, and is idempotent.
pub proof fn padding_is_least(x: nat, align: nat, y: nat)
    requires
        align > 0,
        y % align == 0,
        x <= y,
    ensures
        padded(x, align) % align == 0,
        x <= padded(x, align) <= y,
        padded(padded(x, align), align) == padded(x, align),
{
    padded_bounds(x, align);
    padded_fixed(padded(x, align), align);
    let p = padded(x, align);
    if p > y {
        vstd::arithmetic::div_mod::lemma_fundamental_div_mod(p as int, align as int);
        vstd::arithmetic::div_mod::lemma_fundamental_div_mod(y as int, align as int);
        assert(p as int / align as int * align as int >= (y as int / align as int + 1)
            * align as int) by (nonlinear_arith)
            requires
                align > 0,
                p == align as int * (p as int / align as int),
                y == align as int * (y as int / align as int),
                p > y,
        ;
        assert(false) by (nonlinear_arith)
            requires
                align > 0,
                p == align as int * (p as int / align as int),
                y == align as int * (y as int / align as int),
                p as int / align as int * align as int >= (y as int / align as int + 1)
                    * align as int,
                p < x + align,
                x <= y,
        ;
    }
}

} // verus!
