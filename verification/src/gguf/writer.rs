//! Writing a GGUF file.

use crate::gguf::format::{
    bool_byte, enc_all, enc_counted, enc_kv, enc_payload, enc_str, enc_tensor, models, pad_after,
    zeros, Field, TensorView,
};
use crate::gguf::reader::ReaderTensor;
use crate::gguf::{
    ggml_pad, kv_views, migrated, padded, padded_bounds, Value, ValueView, ALIGNMENT,
    GGUF_MAGIC, GGUF_VERSION, TYPE_CODE_MIGRATIONS, V_BOOL, V_F32, V_F64, V_I16, V_I32, V_I64,
    V_I8, V_STRING, V_U16, V_U32, V_U64, V_U8,
};
use crate::le::{le_bytes, put_le};
use crate::text::views;
use vstd::prelude::*;

verus! {

/// A tensor as it is declared to the writer.
#[derive(Debug, Clone)]
pub struct TensorInfo {
    pub name: String,
    /// Logical shape in row-major order; written reversed on disk.
    pub shape: Vec<u64>,
    pub dtype: u32,
    pub nbytes: u64,
}

/// What a tensor declaration means.
pub struct InfoView {
    pub name: Seq<char>,
    pub shape: Seq<u64>,
    pub dtype: u32,
    pub nbytes: u64,
}

impl View for TensorInfo {
    type V = InfoView;

    open spec fn view(&self) -> InfoView {
        InfoView {
            name: self.name@,
            shape: self.shape@,
            dtype: self.dtype,
            nbytes: self.nbytes,
        }
    }
}

/// What a list of declarations means.
pub open spec fn info_views(v: Seq<TensorInfo>) -> Seq<InfoView> {
    Seq::new(v.len(), |i: int| v[i]@)
}

/// The size of the data section of these tensors, each padded to the
/// alignment.
pub open spec fn data_size(tensors: Seq<InfoView>) -> nat
    decreases tensors.len(),
{
    if tensors.len() == 0 {
        0
    } else {
        data_size(tensors.drop_last()) + padded(tensors.last().nbytes as nat, ALIGNMENT as nat)
    }
}

/// The entry of tensor `i`: its shape reversed, its data behind that of the
/// tensors before it.
pub open spec fn entry(tensors: Seq<InfoView>, i: int) -> TensorView {
    TensorView {
        name: tensors[i].name,
        dims: tensors[i].shape.reverse(),
        dtype_orig: tensors[i].dtype,
        dtype: migrated(TYPE_CODE_MIGRATIONS@, tensors[i].dtype),
        offset: data_size(tensors.take(i)) as u64,
        nbytes: tensors[i].nbytes,
    }
}

/// The entries of all tensors.
pub open spec fn entries(tensors: Seq<InfoView>) -> Seq<TensorView> {
    Seq::new(tensors.len(), |i: int| entry(tensors, i))
}

/// The header without the padding behind it: magic, version, counts,
/// metadata, tensor entries.
pub open spec fn header_body(
    kvs: Seq<(Seq<char>, ValueView)>,
    tensors: Seq<InfoView>,
) -> Seq<u8> {
    header_start(tensors.len(), kvs.len()) + enc_all::<(String, Value)>(kvs) + enc_all::<
        ReaderTensor,
    >(entries(tensors))
}

/// Magic, version and counts.
pub open spec fn header_start(n_tensors: nat, n_kvs: nat) -> Seq<u8> {
    le_bytes(GGUF_MAGIC as nat, 4) + le_bytes(GGUF_VERSION as nat, 4) + le_bytes(n_tensors, 8)
        + le_bytes(n_kvs, 8)
}

/// The header with its padding: what stands before the data section.
pub open spec fn header_bytes(
    kvs: Seq<(Seq<char>, ValueView)>,
    tensors: Seq<InfoView>,
) -> Seq<u8> {
    header_body(kvs, tensors) + pad_after(header_body(kvs, tensors).len())
}

/// The state of a writer.
pub struct WriterView {
    /// The bytes written and not yet taken.
    pub out: Seq<u8>,
    pub kvs: Seq<(Seq<char>, ValueView)>,
    pub tensors: Seq<InfoView>,
    pub header_written: bool,
    /// How far into the data section the writer is.
    pub data_pos: u64,
    pub next_tensor: nat,
}

/// Whether a key is listed.
pub open spec fn has_key(kvs: Seq<(Seq<char>, ValueView)>, key: Seq<char>) -> bool {
    exists|i: int| 0 <= i < kvs.len() && (#[trigger] kvs[i]).0 == key
}

/// Whether a tensor of this name is declared.
pub open spec fn has_tensor(tensors: Seq<InfoView>, name: Seq<char>) -> bool {
    exists|i: int| 0 <= i < tensors.len() && (#[trigger] tensors[i]).name == name
}

/// No key is listed twice.
pub open spec fn distinct_keys(kvs: Seq<(Seq<char>, ValueView)>) -> bool {
    forall|i: int, j: int|
        0 <= i < j < kvs.len() ==> (#[trigger] kvs[i]).0 != (#[trigger] kvs[j]).0
}

/// No tensor name is declared twice.
pub open spec fn distinct_names(tensors: Seq<InfoView>) -> bool {
    forall|i: int, j: int|
        0 <= i < j < tensors.len() ==> (#[trigger] tensors[i]).name != (#[trigger] tensors[j]).name
}

impl WriterView {
    /// No key and no tensor name twice; nothing of the data section before
    /// the header; no more tensors written than declared.
    pub open spec fn wf(self) -> bool {
        &&& distinct_keys(self.kvs)
        &&& distinct_names(self.tensors)
        &&& self.next_tensor <= self.tensors.len()
        &&& !self.header_written ==> self.data_pos == 0 && self.next_tensor == 0
    }

    /// The header written.
    pub open spec fn headed(self) -> WriterView {
        WriterView {
            out: self.out + header_bytes(self.kvs, self.tensors),
            header_written: true,
            ..self
        }
    }

    /// `data` written at the end of the data section.
    pub open spec fn wrote(self, data: Seq<u8>) -> WriterView {
        WriterView {
            out: self.out + data,
            data_pos: (self.data_pos + data.len()) as u64,
            ..self
        }
    }

    /// The next tensor started.
    pub open spec fn begun(self) -> WriterView {
        WriterView { next_tensor: self.next_tensor + 1, ..self }
    }

    /// Pieces written one after another at the end of the data section.
    pub open spec fn wrote_all(self, chunks: Seq<Seq<u8>>) -> WriterView
        decreases chunks.len(),
    {
        if chunks.len() == 0 {
            self
        } else {
            self.wrote(chunks[0]).wrote_all(chunks.drop_first())
        }
    }

    /// The data section filled up to the alignment.
    pub open spec fn aligned(self) -> WriterView {
        self.wrote(pad_after(self.data_pos as nat))
    }

    /// The next tensor written with these data.
    pub open spec fn wrote_tensor(self, data: Seq<u8>) -> WriterView {
        WriterView { next_tensor: self.next_tensor + 1, ..self.wrote(data).aligned() }
    }
}

/// Streaming GGUF writer: all KV pairs and tensor infos are declared first,
/// then tensor data is appended in declaration order. What is written
/// collects in `out`, from where it can be taken at any time.
pub struct Writer {
    out: Vec<u8>,
    kvs: Vec<(String, Value)>,
    tensors: Vec<TensorInfo>,
    header_written: bool,
    data_pos: u64,
    next_tensor: usize,
}

impl View for Writer {
    type V = WriterView;

    closed spec fn view(&self) -> WriterView {
        WriterView {
            out: self.out@,
            kvs: kv_views(self.kvs@),
            tensors: info_views(self.tensors@),
            header_written: self.header_written,
            data_pos: self.data_pos,
            next_tensor: self.next_tensor as nat,
        }
    }
}

/// Append a string: its length in bytes, then its bytes.
pub fn write_str(out: &mut Vec<u8>, s: &str)
    ensures
        final(out)@ == old(out)@ + enc_str(s@),
{
    let b = s.as_bytes();
    put_le(out, b.len() as u64, 8);
    put_bytes(out, b);
    assert(old(out)@ + le_bytes(b@.len(), 8) + b@ =~= old(out)@ + enc_str(s@));
}

/// Append bytes.
pub fn put_bytes(out: &mut Vec<u8>, b: &[u8])
    ensures
        final(out)@ == old(out)@ + b@,
{
    out.extend_from_slice(b);
    assert(out@ =~= old(out)@ + b@);
}

/// Append `n` zero bytes.
fn put_zeros(out: &mut Vec<u8>, n: usize)
    ensures
        final(out)@ == old(out)@ + zeros(n as nat),
{
    let mut i: usize = 0;
    assert(out@ =~= old(out)@ + zeros(0));
    while i < n
        invariant
            i <= n,
            out@ == old(out)@ + zeros(i as nat),
        decreases n - i,
    {
        out.push(0);
        i += 1;
        assert(out@ =~= old(out)@ + zeros(i as nat));
    }
}

/// The next item of a list stands behind the bytes of those before it.
proof fn enc_all_next<T: Field>(ms: Seq<T::Model>, i: int)
    requires
        0 <= i < ms.len(),
    ensures
        enc_all::<T>(ms.take(i + 1)) == enc_all::<T>(ms.take(i)) + T::enc(ms[i]),
    decreases i,
{
    if i == 0 {
        assert(ms.take(1).drop_first() =~= Seq::empty());
        assert(ms.take(0) =~= Seq::empty());
        assert(enc_all::<T>(ms.take(1).drop_first()) =~= Seq::empty());
        assert(enc_all::<T>(ms.take(1)) =~= T::enc(ms[0]));
        assert(enc_all::<T>(ms.take(0)) + T::enc(ms[0]) =~= T::enc(ms[0]));
    } else {
        enc_all_next::<T>(ms.drop_first(), i - 1);
        assert(ms.take(i + 1).drop_first() =~= ms.drop_first().take(i));
        assert(ms.take(i).drop_first() =~= ms.drop_first().take(i - 1));
        assert(ms.drop_first()[i - 1] == ms[i]);
        assert(enc_all::<T>(ms.take(i + 1)) =~= enc_all::<T>(ms.take(i)) + T::enc(ms[i]));
    }
}

/// An element of arrays, and how it is written.
pub trait Element: Field {
    /// Append an element.
    fn put(&self, out: &mut Vec<u8>)
        ensures
            final(out)@ == old(out)@ + Self::enc(self.model()),
    ;
}

impl Element for String {
    fn put(&self, out: &mut Vec<u8>) {
        write_str(out, self.as_str());
    }
}

impl Element for bool {
    fn put(&self, out: &mut Vec<u8>) {
        out.push(if *self { 1 } else { 0 });
        assert(out@ =~= old(out)@ + seq![bool_byte(*self)]);
    }
}

impl Element for u8 {
    fn put(&self, out: &mut Vec<u8>) {
        put_le(out, *self as u64, 1);
    }
}

impl Element for i8 {
    fn put(&self, out: &mut Vec<u8>) {
        put_le(out, (*self as u8) as u64, 1);
    }
}

impl Element for u16 {
    fn put(&self, out: &mut Vec<u8>) {
        put_le(out, *self as u64, 2);
    }
}

impl Element for i16 {
    fn put(&self, out: &mut Vec<u8>) {
        put_le(out, (*self as u16) as u64, 2);
    }
}

impl Element for u32 {
    fn put(&self, out: &mut Vec<u8>) {
        put_le(out, *self as u64, 4);
    }
}

impl Element for i32 {
    fn put(&self, out: &mut Vec<u8>) {
        put_le(out, (*self as u32) as u64, 4);
    }
}

impl Element for u64 {
    fn put(&self, out: &mut Vec<u8>) {
        put_le(out, *self, 8);
    }
}

impl Element for i64 {
    fn put(&self, out: &mut Vec<u8>) {
        put_le(out, *self as u64, 8);
    }
}

/// Append an array: the type id of its elements, their number, and the
/// elements.
fn put_array<T: Element>(out: &mut Vec<u8>, elem: u32, v: &Vec<T>)
    ensures
        final(out)@ == old(out)@ + (le_bytes(elem as nat, 4) + enc_counted::<T>(models(v@))),
{
    put_le(out, elem as u64, 4);
    put_le(out, v.len() as u64, 8);
    let ghost start = out@;
    let ghost ms = models(v@);
    let mut i: usize = 0;
    assert(ms.take(0) =~= Seq::empty());
    assert(out@ =~= start + enc_all::<T>(ms.take(0)));
    while i < v.len()
        invariant
            i <= v@.len(),
            ms == models(v@),
            out@ == start + enc_all::<T>(ms.take(i as int)),
        decreases v@.len() - i,
    {
        v[i].put(out);
        proof {
            enc_all_next::<T>(ms, i as int);
            assert(out@ =~= start + enc_all::<T>(ms.take(i + 1)));
        }
        i += 1;
    }
    assert(ms.take(i as int) =~= ms);
    assert(out@ =~= old(out)@ + (le_bytes(elem as nat, 4) + enc_counted::<T>(ms)));
}

/// Append a value without its type id.
pub fn write_value_payload(out: &mut Vec<u8>, v: &Value)
    ensures
        final(out)@ == old(out)@ + enc_payload(v@),
{
    match v {
        Value::U8(x) => put_le(out, *x as u64, 1),
        Value::I8(x) => put_le(out, (*x as u8) as u64, 1),
        Value::U16(x) => put_le(out, *x as u64, 2),
        Value::I16(x) => put_le(out, (*x as u16) as u64, 2),
        Value::U32(x) => put_le(out, *x as u64, 4),
        Value::I32(x) => put_le(out, (*x as u32) as u64, 4),
        Value::F32(x) => put_le(out, *x as u64, 4),
        Value::Bool(x) => {
            out.push(if *x { 1 } else { 0 });
            assert(out@ =~= old(out)@ + seq![bool_byte(*x)]);
        },
        Value::Str(s) => write_str(out, s.as_str()),
        Value::U64(x) => put_le(out, *x, 8),
        Value::I64(x) => put_le(out, *x as u64, 8),
        Value::F64(x) => put_le(out, *x, 8),
        Value::ArrStr(items) => {
            put_array(out, V_STRING, items);
            assert(models(items@) =~= views(items@));
        },
        Value::ArrI32(items) => {
            put_array(out, V_I32, items);
            assert(models(items@) =~= items@);
        },
        Value::ArrF32(items) => {
            put_array(out, V_F32, items);
            assert(models(items@) =~= items@);
        },
        Value::ArrBool(items) => {
            put_array(out, V_BOOL, items);
            assert(models(items@) =~= items@);
        },
        Value::ArrU8(items) => {
            put_array(out, V_U8, items);
            assert(models(items@) =~= items@);
        },
        Value::ArrI8(items) => {
            put_array(out, V_I8, items);
            assert(models(items@) =~= items@);
        },
        Value::ArrU16(items) => {
            put_array(out, V_U16, items);
            assert(models(items@) =~= items@);
        },
        Value::ArrI16(items) => {
            put_array(out, V_I16, items);
            assert(models(items@) =~= items@);
        },
        Value::ArrU32(items) => {
            put_array(out, V_U32, items);
            assert(models(items@) =~= items@);
        },
        Value::ArrU64(items) => {
            put_array(out, V_U64, items);
            assert(models(items@) =~= items@);
        },
        Value::ArrI64(items) => {
            put_array(out, V_I64, items);
            assert(models(items@) =~= items@);
        },
        Value::ArrF64(items) => {
            put_array(out, V_F64, items);
            assert(models(items@) =~= items@);
        },
    }
}

/// Append a metadata pair.
fn put_kv(out: &mut Vec<u8>, key: &String, v: &Value)
    ensures
        final(out)@ == old(out)@ + enc_kv((key@, v@)),
{
    write_str(out, key.as_str());
    put_le(out, v.type_id() as u64, 4);
    write_value_payload(out, v);
    assert(out@ =~= old(out)@ + enc_kv((key@, v@)));
}

/// Append a tensor's entry.
fn put_entry(out: &mut Vec<u8>, t: &TensorInfo, offset: u64)
    ensures
        final(out)@ == old(out)@ + enc_tensor(
            t.name@,
            t.shape@.reverse(),
            t.dtype,
            offset,
        ),
{
    write_str(out, t.name.as_str());
    put_le(out, t.shape.len() as u64, 4);
    let ghost start = out@;
    let ghost dims = t.shape@.reverse();
    let mut i: usize = 0;
    assert(dims.take(0) =~= Seq::empty());
    assert(out@ =~= start + enc_all::<u64>(dims.take(0)));
    while i < t.shape.len()
        invariant
            i <= t.shape@.len(),
            dims == t.shape@.reverse(),
            out@ == start + enc_all::<u64>(dims.take(i as int)),
        decreases t.shape@.len() - i,
    {
        put_le(out, t.shape[t.shape.len() - 1 - i], 8);
        proof {
            enc_all_next::<u64>(dims, i as int);
            assert(out@ =~= start + enc_all::<u64>(dims.take(i + 1)));
        }
        i += 1;
    }
    assert(dims.take(i as int) =~= dims);
    put_le(out, t.dtype as u64, 4);
    put_le(out, offset, 8);
    assert(out@ =~= old(out)@ + enc_tensor(t.name@, dims, t.dtype, offset));
}

/// Prefixes take no more room than the whole.
pub proof fn data_size_prefix(tensors: Seq<InfoView>, i: int)
    requires
        0 <= i <= tensors.len(),
    ensures
        data_size(tensors.take(i)) <= data_size(tensors),
    decreases tensors.len(),
{
    if i == tensors.len() {
        assert(tensors.take(i) =~= tensors);
    } else {
        data_size_prefix(tensors.drop_last(), i);
        assert(tensors.drop_last().take(i) =~= tensors.take(i));
    }
}

/// One more tensor adds its padded size.
pub proof fn data_size_next(tensors: Seq<InfoView>, i: int)
    requires
        0 <= i < tensors.len(),
    ensures
        data_size(tensors.take(i + 1)) == data_size(tensors.take(i)) + padded(
            tensors[i].nbytes as nat,
            ALIGNMENT as nat,
        ),
        data_size(tensors.take(i + 1)) <= data_size(tensors),
{
    assert(tensors.take(i + 1).drop_last() =~= tensors.take(i));
    data_size_prefix(tensors, i + 1);
}

/// The number of zero bytes that fill `len` up to the alignment.
fn fill(len: u64) -> (n: usize)
    ensures
        zeros(n as nat) == pad_after(len as nat),
        n < ALIGNMENT,
        n == padded(len as nat, ALIGNMENT as nat) - len,
{
    let over: u64 = len % ALIGNMENT;
    proof {
        padded_bounds(len as nat, ALIGNMENT as nat);
    }
    if over == 0 {
        0
    } else {
        (ALIGNMENT - over) as usize
    }
}

impl Writer {
    /// A writer that appends to `out`.
    pub fn new(out: Vec<u8>) -> (w: Writer)
        ensures
            w@ == (WriterView {
                out: out@,
                kvs: Seq::empty(),
                tensors: Seq::empty(),
                header_written: false,
                data_pos: 0,
                next_tensor: 0,
            }),
            w@.wf(),
    {
        let w = Writer {
            out,
            kvs: Vec::new(),
            tensors: Vec::new(),
            header_written: false,
            data_pos: 0,
            next_tensor: 0,
        };
        assert(w@.kvs =~= Seq::empty());
        assert(w@.tensors =~= Seq::empty());
        w
    }

    /// Whether `key` is declared.
    pub fn has_key(&self, key: &str) -> (r: bool)
        ensures
            r == has_key(self@.kvs, key@),
    {
        let key_string: String = key.to_owned();
        let mut i: usize = 0;
        while i < self.kvs.len()
            invariant
                i <= self.kvs@.len(),
                key_string@ == key@,
                forall|j: int| 0 <= j < i ==> (#[trigger] self@.kvs[j]).0 != key@,
            decreases self.kvs@.len() - i,
        {
            if self.kvs[i].0 == key_string {
                assert(self@.kvs[i as int].0 == key@);
                return true;
            }
            i += 1;
        }
        false
    }

    /// Whether a tensor called `name` is declared.
    pub fn has_tensor(&self, name: &str) -> (r: bool)
        ensures
            r == has_tensor(self@.tensors, name@),
    {
        let name_string: String = name.to_owned();
        let mut i: usize = 0;
        while i < self.tensors.len()
            invariant
                i <= self.tensors@.len(),
                name_string@ == name@,
                forall|j: int| 0 <= j < i ==> (#[trigger] self@.tensors[j]).name != name@,
            decreases self.tensors@.len() - i,
        {
            if self.tensors[i].name == name_string {
                assert(self@.tensors[i as int].name == name@);
                return true;
            }
            i += 1;
        }
        false
    }

    /// Declare a metadata pair.
    pub fn add_kv(&mut self, key: &str, value: Value)
        requires
            old(self)@.wf(),
            !old(self)@.header_written,
            !has_key(old(self)@.kvs, key@),
        ensures
            final(self)@ == (WriterView {
                kvs: old(self)@.kvs.push((key@, value@)),
                ..old(self)@
            }),
            final(self)@.wf(),
    {
        self.kvs.push((key.to_owned(), value));
        assert(self@.kvs =~= old(self)@.kvs.push((key@, value@)));
        assert forall|i: int, j: int| 0 <= i < j < self@.kvs.len() implies (
        #[trigger] self@.kvs[i]).0 != (#[trigger] self@.kvs[j]).0 by {
            assert(self@.kvs[i] == old(self)@.kvs[i]);
            if j < old(self)@.kvs.len() {
                assert(self@.kvs[j] == old(self)@.kvs[j]);
            }
        }
    }

    /// Declare a string; an empty one is dropped.
    pub fn add_string(&mut self, key: &str, value: &str)
        requires
            old(self)@.wf(),
            value@.len() > 0 ==> !old(self)@.header_written && !has_key(old(self)@.kvs, key@),
        ensures
            value@.len() == 0 ==> final(self)@ == old(self)@,
            value@.len() > 0 ==> final(self)@ == (WriterView {
                kvs: old(self)@.kvs.push((key@, ValueView::Str(value@))),
                ..old(self)@
            }),
            final(self)@.wf(),
    {
        if value.is_empty() {
            return;
        }
        self.add_kv(key, Value::Str(value.to_owned()));
    }

    /// Declare a tensor.
    pub fn add_tensor_info(&mut self, name: &str, shape: Vec<u64>, dtype: u32, nbytes: u64)
        requires
            old(self)@.wf(),
            !old(self)@.header_written,
            !has_tensor(old(self)@.tensors, name@),
        ensures
            final(self)@ == (WriterView {
                tensors: old(self)@.tensors.push(
                    InfoView { name: name@, shape: shape@, dtype, nbytes },
                ),
                ..old(self)@
            }),
            final(self)@.wf(),
    {
        self.tensors.push(TensorInfo { name: name.to_owned(), shape, dtype, nbytes });
        assert(self@.tensors =~= old(self)@.tensors.push(
            InfoView { name: name@, shape: shape@, dtype, nbytes },
        ));
        assert forall|i: int, j: int| 0 <= i < j < self@.tensors.len() implies (
        #[trigger] self@.tensors[i]).name != (#[trigger] self@.tensors[j]).name by {
            assert(self@.tensors[i] == old(self)@.tensors[i]);
            if j < old(self)@.tensors.len() {
                assert(self@.tensors[j] == old(self)@.tensors[j]);
            }
        }
    }

    /// The header without its padding.
    fn header(&self) -> (buf: Vec<u8>)
        requires
            data_size(self@.tensors) <= u64::MAX,
        ensures
            buf@ == header_body(self@.kvs, self@.tensors),
    {
        let mut buf: Vec<u8> = Vec::new();
        put_le(&mut buf, GGUF_MAGIC as u64, 4);
        put_le(&mut buf, GGUF_VERSION as u64, 4);
        put_le(&mut buf, self.tensors.len() as u64, 8);
        put_le(&mut buf, self.kvs.len() as u64, 8);
        let ghost kvs = self@.kvs;
        let ghost start = header_start(self@.tensors.len(), kvs.len());
        assert(kvs.take(0) =~= Seq::empty());
        assert(buf@ =~= start + enc_all::<(String, Value)>(kvs.take(0)));
        let mut i: usize = 0;
        while i < self.kvs.len()
            invariant
                i <= self.kvs@.len(),
                kvs == self@.kvs,
                buf@ == start + enc_all::<(String, Value)>(kvs.take(i as int)),
            decreases self.kvs@.len() - i,
        {
            put_kv(&mut buf, &self.kvs[i].0, &self.kvs[i].1);
            proof {
                enc_all_next::<(String, Value)>(kvs, i as int);
                assert(buf@ =~= start + enc_all::<(String, Value)>(kvs.take(i + 1)));
            }
            i += 1;
        }
        assert(kvs.take(i as int) =~= kvs);
        let ghost middle = buf@;
        let ghost infos = self@.tensors;
        let ghost all = entries(infos);
        let mut offset: u64 = 0;
        let mut k: usize = 0;
        assert(infos.take(0) =~= Seq::empty());
        assert(all.take(0) =~= Seq::empty());
        assert(buf@ =~= middle + enc_all::<ReaderTensor>(all.take(0)));
        while k < self.tensors.len()
            invariant
                k <= self.tensors@.len(),
                infos == self@.tensors,
                all == entries(infos),
                data_size(infos) <= u64::MAX,
                offset == data_size(infos.take(k as int)),
                buf@ == middle + enc_all::<ReaderTensor>(all.take(k as int)),
            decreases self.tensors@.len() - k,
        {
            let t = &self.tensors[k];
            put_entry(&mut buf, t, offset);
            proof {
                assert(infos[k as int] == t@);
                enc_all_next::<ReaderTensor>(all, k as int);
                assert(buf@ =~= middle + enc_all::<ReaderTensor>(all.take(k + 1)));
                data_size_next(infos, k as int);
            }
            offset = offset + ggml_pad(t.nbytes, ALIGNMENT);
            k += 1;
        }
        assert(all.take(k as int) =~= all);
        buf
    }

    /// Write header, KV section, tensor-info section, and padding up to the
    /// data section start.
    pub fn write_header(&mut self)
        requires
            old(self)@.wf(),
            !old(self)@.header_written,
            data_size(old(self)@.tensors) <= u64::MAX,
        ensures
            final(self)@ == old(self)@.headed(),
            final(self)@.wf(),
    {
        let mut buf = self.header();
        let pad: usize = fill(buf.len() as u64);
        put_zeros(&mut buf, pad);
        put_bytes(&mut self.out, buf.as_slice());
        self.header_written = true;
    }

    /// Append one tensor's data, padded to the alignment.
    pub fn write_tensor_data(&mut self, data: &[u8])
        requires
            old(self)@.wf(),
            old(self)@.header_written,
            old(self)@.next_tensor < old(self)@.tensors.len(),
            data@.len() == old(self)@.tensors[old(self)@.next_tensor as int].nbytes,
            padded(old(self)@.data_pos as nat + data@.len(), ALIGNMENT as nat) <= u64::MAX,
        ensures
            final(self)@ == old(self)@.wrote_tensor(data@),
            final(self)@.wf(),
    {
        proof {
            padded_bounds(self.data_pos as nat + data@.len(), ALIGNMENT as nat);
        }
        assert(self.next_tensor < self.tensors.len());
        self.next_tensor = self.next_tensor + 1;
        self.write_chunk(data);
        self.pad_to_alignment();
    }

    /// Start the next tensor, to be streamed with `write_chunk` and closed
    /// with `end_tensor`; gives its declared size.
    pub fn begin_tensor(&mut self) -> (n: u64)
        requires
            old(self)@.wf(),
            old(self)@.header_written,
            old(self)@.next_tensor < old(self)@.tensors.len(),
        ensures
            n == old(self)@.tensors[old(self)@.next_tensor as int].nbytes,
            final(self)@ == old(self)@.begun(),
            final(self)@.wf(),
    {
        assert(self.next_tensor < self.tensors.len());
        let n: u64 = self.tensors[self.next_tensor].nbytes;
        self.next_tensor = self.next_tensor + 1;
        n
    }

    /// How many tensors were written.
    pub fn written(&self) -> (r: usize)
        ensures
            r == self@.next_tensor,
    {
        self.next_tensor
    }

    /// How far into the data section the writer is.
    pub fn position(&self) -> (r: u64)
        ensures
            r == self@.data_pos,
    {
        self.data_pos
    }

    /// Append a piece of the current tensor's data.
    pub fn write_chunk(&mut self, data: &[u8])
        requires
            old(self)@.wf(),
            old(self)@.header_written,
            old(self)@.data_pos + data@.len() <= u64::MAX,
        ensures
            final(self)@ == old(self)@.wrote(data@),
            final(self)@.wf(),
    {
        put_bytes(&mut self.out, data);
        self.data_pos = self.data_pos + data.len() as u64;
    }

    /// Close the current tensor: fill up to the alignment.
    pub fn end_tensor(&mut self)
        requires
            old(self)@.wf(),
            old(self)@.header_written,
            padded(old(self)@.data_pos as nat, ALIGNMENT as nat) <= u64::MAX,
        ensures
            final(self)@ == old(self)@.aligned(),
            final(self)@.wf(),
    {
        self.pad_to_alignment()
    }

    fn pad_to_alignment(&mut self)
        requires
            old(self)@.wf(),
            old(self)@.header_written,
            padded(old(self)@.data_pos as nat, ALIGNMENT as nat) <= u64::MAX,
        ensures
            final(self)@ == old(self)@.aligned(),
            final(self)@.wf(),
    {
        let pad: usize = fill(self.data_pos);
        put_zeros(&mut self.out, pad);
        self.data_pos = self.data_pos + pad as u64;
    }

    /// Take the bytes that were written and not yet taken.
    pub fn take_output(&mut self) -> (out: Vec<u8>)
        ensures
            out@ == old(self)@.out,
            final(self)@ == (WriterView { out: Seq::empty(), ..old(self)@ }),
    {
        let mut out: Vec<u8> = Vec::new();
        std::mem::swap(&mut out, &mut self.out);
        out
    }

    /// The bytes written and not yet taken, once every tensor was written.
    pub fn finish(self) -> (out: Vec<u8>)
        requires
            self@.wf(),
            self@.next_tensor == self@.tensors.len(),
        ensures
            out@ == self@.out,
    {
        self.out
    }
}

} // verus!
