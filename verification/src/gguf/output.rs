//! A file that is written tensor by tensor and handed out in pieces.

use crate::gguf::format::pad_after;
use crate::gguf::laws::{data_section, data_section_len, file_bytes, padded_shift};
use crate::gguf::writer::{
    data_size, data_size_next, distinct_keys, distinct_names, has_key, has_tensor, header_bytes,
    info_views, InfoView, TensorInfo, Writer, WriterView,
};
use crate::gguf::{kv_views, padded, padded_bounds, padding_is, Value, ValueView, ALIGNMENT};
use vstd::prelude::*;

verus! {

/// Why a file cannot be written.
#[derive(Debug, PartialEq)]
pub enum FileError {
    /// A key is listed twice.
    DuplicateKey(String),
    /// A tensor is declared twice.
    DuplicateTensor(String),
    /// The data have no room in 64 bits.
    TooLarge,
}

/// A file that is being written: its header, then the data of its tensors.
pub struct Output {
    writer: Writer,
    datas: Ghost<Seq<Seq<u8>>>,
    taken: Ghost<Seq<u8>>,
}

/// What is known of a file that is being written.
pub struct OutputView {
    pub kvs: Seq<(Seq<char>, ValueView)>,
    pub tensors: Seq<InfoView>,
    /// The data of the tensors that were written.
    pub datas: Seq<Seq<u8>>,
    /// The bytes that were taken.
    pub taken: Seq<u8>,
    /// The bytes that were written and not yet taken.
    pub rest: Seq<u8>,
}

impl View for Output {
    type V = OutputView;

    closed spec fn view(&self) -> OutputView {
        OutputView {
            kvs: self.writer@.kvs,
            tensors: self.writer@.tensors,
            datas: self.datas@,
            taken: self.taken@,
            rest: self.writer@.out,
        }
    }
}

/// Whether the first of some tensors have these data.
pub open spec fn starts_with_data(tensors: Seq<InfoView>, datas: Seq<Seq<u8>>) -> bool {
    &&& datas.len() <= tensors.len()
    &&& forall|i: int|
        0 <= i < datas.len() ==> (#[trigger] datas[i]).len() == tensors[i].nbytes
}

/// Whether a key is listed twice.
pub open spec fn repeats_key(kvs: Seq<(Seq<char>, ValueView)>, key: Seq<char>) -> bool {
    exists|i: int, j: int|
        0 <= i < j < kvs.len() && (#[trigger] kvs[i]).0 == key && (#[trigger] kvs[j]).0 == key
}

/// Whether a tensor is declared twice.
pub open spec fn repeats_name(tensors: Seq<InfoView>, name: Seq<char>) -> bool {
    exists|i: int, j: int|
        0 <= i < j < tensors.len() && (#[trigger] tensors[i]).name == name && (
        #[trigger] tensors[j]).name == name
}

impl OutputView {
    /// The next tensor written with these data.
    pub open spec fn pushed(self, data: Seq<u8>) -> OutputView {
        OutputView {
            datas: self.datas.push(data),
            rest: self.rest + data + pad_after(data.len()),
            ..self
        }
    }

    /// Whether the data section has room in 64 bits for `n` bytes more, filled
    /// up to the alignment.
    pub open spec fn room(self, n: nat) -> bool {
        data_section(self.datas).len() + padded(n, ALIGNMENT as nat) <= u64::MAX
    }

    /// Whether every tensor was written.
    pub open spec fn complete(self) -> bool {
        self.datas.len() == self.tensors.len()
    }
}

/// Where the data so far have the declared sizes, those of the next tensor have
/// room.
pub proof fn declared_has_room(o: OutputView)
    requires
        starts_with_data(o.tensors, o.datas),
        data_size(o.tensors) <= u64::MAX,
        !o.complete(),
    ensures
        o.room(o.tensors[o.datas.len() as int].nbytes as nat),
{
    let k = o.datas.len() as int;
    let ts = o.tensors.take(k);
    assert forall|i: int| 0 <= i < k implies (#[trigger] o.datas[i]).len() == ts[i].nbytes by {
        assert(ts[i] == o.tensors[i]);
    }
    data_section_len(ts, o.datas);
    data_size_next(o.tensors, k);
}

impl Output {
    /// What was taken and what was not make the header and the data of the
    /// tensors that were written.
    pub closed spec fn wf(self) -> bool {
        let w = self.writer@;
        &&& w.wf()
        &&& w.header_written
        &&& data_size(w.tensors) <= u64::MAX
        &&& w.next_tensor == self.datas@.len()
        &&& w.data_pos == data_section(self.datas@).len()
        &&& w.data_pos % ALIGNMENT == 0
        &&& self.taken@ + w.out == header_bytes(w.kvs, w.tensors) + data_section(self.datas@)
    }

    /// Of a file that is being written, what was taken and what was not make
    /// the header and the data so far; once every tensor was written, the
    /// whole file.
    pub proof fn so_far(self)
        requires
            self.wf(),
        ensures
            self@.datas.len() <= self@.tensors.len(),
            data_size(self@.tensors) <= u64::MAX,
            self@.taken + self@.rest == header_bytes(self@.kvs, self@.tensors) + data_section(
                self@.datas,
            ),
            self@.complete() ==> self@.taken + self@.rest == file_bytes(
                self@.kvs,
                self@.tensors,
                self@.datas,
            ),
            distinct_keys(self@.kvs),
            distinct_names(self@.tensors),
    {
    }

    /// Start a file with these metadata and tensors.
    pub fn start(kvs: Vec<(String, Value)>, infos: Vec<TensorInfo>) -> (r: Result<
        Output,
        FileError,
    >)
        ensures
            r is Ok <==> distinct_keys(kv_views(kvs@)) && distinct_names(info_views(infos@))
                && data_size(info_views(infos@)) <= u64::MAX,
            r matches Ok(o) ==> o.wf() && o@ == (OutputView {
                kvs: kv_views(kvs@),
                tensors: info_views(infos@),
                datas: Seq::empty(),
                taken: Seq::empty(),
                rest: header_bytes(kv_views(kvs@), info_views(infos@)),
            }),
            r matches Err(FileError::DuplicateKey(_)) <==> !distinct_keys(kv_views(kvs@)),
            r matches Err(FileError::DuplicateTensor(_)) <==> distinct_keys(kv_views(kvs@))
                && !distinct_names(info_views(infos@)),
            r matches Err(FileError::DuplicateKey(key)) ==> repeats_key(kv_views(kvs@), key@),
            r matches Err(FileError::DuplicateTensor(name)) ==> repeats_name(
                info_views(infos@),
                name@,
            ),
    {
        let ghost ks = kv_views(kvs@);
        let ghost ts = info_views(infos@);
        let mut w = Writer::new(Vec::new());
        let mut i: usize = 0;
        assert(ks.take(0) =~= Seq::empty());
        while i < kvs.len()
            invariant
                i <= kvs@.len(),
                ks == kv_views(kvs@),
                w@.wf(),
                w@ == (WriterView {
                    out: Seq::empty(),
                    kvs: ks.take(i as int),
                    tensors: Seq::empty(),
                    header_written: false,
                    data_pos: 0,
                    next_tensor: 0,
                }),
            decreases kvs@.len() - i,
        {
            let key = kvs[i].0.as_str();
            assert(ks[i as int] == (kvs@[i as int].0@, kvs@[i as int].1@));
            if w.has_key(key) {
                proof {
                    let k = choose|k: int|
                        0 <= k < ks.take(i as int).len() && (#[trigger] ks.take(i as int)[k]).0
                            == key@;
                    assert(ks[k].0 == ks[i as int].0);
                }
                return Err(FileError::DuplicateKey(key.to_owned()));
            }
            w.add_kv(key, kvs[i].1.clone());
            assert(ks.take(i + 1) =~= ks.take(i as int).push(ks[i as int]));
            i += 1;
        }
        assert(ks.take(i as int) =~= ks);
        let mut j: usize = 0;
        let mut size: u64 = 0;
        assert(ts.take(0) =~= Seq::empty());
        while j < infos.len()
            invariant
                j <= infos@.len(),
                ks == kv_views(kvs@),
                ts == info_views(infos@),
                distinct_keys(ks),
                w@.wf(),
                w@ == (WriterView {
                    out: Seq::empty(),
                    kvs: ks,
                    tensors: ts.take(j as int),
                    header_written: false,
                    data_pos: 0,
                    next_tensor: 0,
                }),
            decreases infos@.len() - j,
        {
            let name = infos[j].name.as_str();
            assert(ts[j as int] == infos@[j as int]@);
            if w.has_tensor(name) {
                proof {
                    let k = choose|k: int|
                        0 <= k < ts.take(j as int).len() && (#[trigger] ts.take(j as int)[k]).name
                            == name@;
                    assert(ts[k].name == ts[j as int].name);
                }
                return Err(FileError::DuplicateTensor(name.to_owned()));
            }
            let shape: Vec<u64> = infos[j].shape.clone();
            assert(shape@ =~= infos@[j as int].shape@);
            w.add_tensor_info(name, shape, infos[j].dtype, infos[j].nbytes);
            assert(ts.take(j + 1) =~= ts.take(j as int).push(ts[j as int]));
            j += 1;
        }
        assert(ts.take(j as int) =~= ts);
        let mut k: usize = 0;
        while k < infos.len()
            invariant
                k <= infos@.len(),
                ks == kv_views(kvs@),
                ts == info_views(infos@),
                distinct_keys(ks),
                distinct_names(ts),
                size == data_size(ts.take(k as int)),
            decreases infos@.len() - k,
        {
            let n: u64 = infos[k].nbytes;
            proof {
                assert(ts[k as int] == infos@[k as int]@);
                data_size_next(ts, k as int);
                padded_bounds(n as nat, ALIGNMENT as nat);
            }
            let over: u64 = n % ALIGNMENT;
            let fill: u64 = if over == 0 {
                0
            } else {
                ALIGNMENT - over
            };
            proof {
                padding_is(n as nat, ALIGNMENT as nat, fill as nat);
            }
            match n.checked_add(fill) {
                None => {
                    return Err(FileError::TooLarge);
                },
                Some(m) => match size.checked_add(m) {
                    None => {
                        return Err(FileError::TooLarge);
                    },
                    Some(s) => {
                        size = s;
                    },
                },
            }
            k += 1;
        }
        assert(ts.take(k as int) =~= ts);
        w.write_header();
        let o = Output { writer: w, datas: Ghost(Seq::empty()), taken: Ghost(Seq::empty()) };
        proof {
            assert(ts.take(0) =~= Seq::empty());
            assert(o.taken@ + o.writer@.out =~= header_bytes(ks, ts) + data_section(o.datas@));
            assert(o.writer@.out =~= header_bytes(ks, ts));
        }
        Ok(o)
    }

    /// How many tensors were written.
    pub fn written(&self) -> (r: usize)
        requires
            self.wf(),
        ensures
            r == self@.datas.len(),
    {
        self.writer.written()
    }

    /// Whether the data section has room for `n` bytes more.
    pub fn has_room(&self, n: usize) -> (r: bool)
        requires
            self.wf(),
        ensures
            r == self@.room(n as nat),
    {
        let over: u64 = n as u64 % ALIGNMENT;
        let fill: u64 = if over == 0 {
            0
        } else {
            ALIGNMENT - over
        };
        proof {
            padding_is(n as nat, ALIGNMENT as nat, fill as nat);
        }
        match (n as u64).checked_add(fill) {
            None => false,
            Some(m) => self.writer.position().checked_add(m).is_some(),
        }
    }

    /// Write the data of the next tensor, of whatever size they are.
    pub fn push(&mut self, data: &[u8])
        requires
            old(self).wf(),
            !old(self)@.complete(),
            old(self)@.room(data@.len()),
        ensures
            final(self).wf(),
            final(self)@ == old(self)@.pushed(data@),
    {
        let ghost before = self.datas@;
        let ghost w0 = self.writer@;
        proof {
            padded_shift(w0.data_pos as nat, data@.len());
            padded_bounds(data@.len(), ALIGNMENT as nat);
            padded_bounds((w0.data_pos + data@.len()) as nat, ALIGNMENT as nat);
        }
        self.writer.begin_tensor();
        self.writer.write_chunk(data);
        self.writer.end_tensor();
        self.datas = Ghost(before.push(data@));
        proof {
            let pad = pad_after((w0.data_pos + data@.len()) as nat);
            assert(pad =~= pad_after(data@.len()));
            assert(self.writer@.out =~= w0.out + data@ + pad_after(data@.len()));
            let all = self.datas@;
            assert(all.drop_last() =~= before);
            let head = header_bytes(w0.kvs, w0.tensors);
            assert(self.taken@ + self.writer@.out =~= head + data_section(all)) by {
                assert(self.taken@ + (w0.out + data@ + pad_after(data@.len())) =~= (self.taken@
                    + w0.out) + data@ + pad_after(data@.len()));
                assert(head + data_section(all) =~= (head + data_section(before)) + data@
                    + pad_after(data@.len()));
            }
        }
    }

    /// Take the bytes that were written and not yet taken.
    pub fn take(&mut self) -> (r: Vec<u8>)
        requires
            old(self).wf(),
        ensures
            final(self).wf(),
            r@ == old(self)@.rest,
            final(self)@ == (OutputView {
                taken: old(self)@.taken + r@,
                rest: Seq::empty(),
                ..old(self)@
            }),
    {
        let ghost before = self.taken@;
        let out = self.writer.take_output();
        self.taken = Ghost(before + out@);
        assert(self.taken@ + self.writer@.out =~= before + out@);
        out
    }
}

} // verus!
