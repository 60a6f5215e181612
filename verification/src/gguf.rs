use vstd::prelude::*;
use vstd::bytes::{spec_u32_from_le_bytes, spec_u64_from_le_bytes, u32_from_le_bytes, u64_from_le_bytes};
use vstd::slice::slice_subrange;
use crate::quantize::{calculate_tensor_size, products_fit, shape_product, spec_tensor_bytes};
use crate::model_architectures::{extract_num, spec_extract_num};
use crate::text::{chars_of, contains_chars, seq_contains_seq};

verus! {

// The reader below walks the bytes of a GGUF file the way a file cursor would: a read of `k`
// bytes at `p` succeeds when they are there and moves on by `k`; a read that runs past the
// end fails and leaves the cursor at the end (or where it was, when already past it), so
// every later read fails too.

/// The cursor after a read of `k` bytes at `p` in a file of `len` bytes.
pub open spec fn after(len: int, p: int, k: int) -> int {
    if p + k <= len {
        p + k
    } else if p < len {
        len
    } else {
        p
    }
}

/// The little-endian `u32` at `p`.
pub open spec fn u32_at(b: Seq<u8>, p: int) -> u32 {
    spec_u32_from_le_bytes(b.subrange(p, p + 4))
}

/// The little-endian `u64` at `p`.
pub open spec fn u64_at(b: Seq<u8>, p: int) -> u64 {
    spec_u64_from_le_bytes(b.subrange(p, p + 8))
}

/// A variable-length count read from `p` on, 7 bits a byte, low bits first, at most ten
/// bytes: (the count, the cursor after it). A read past the end ends it.
pub open spec fn varint(b: Seq<u8>, p: int, i: int, acc: u64) -> (u64, int)
    decreases 10 - i,
{
    if i >= 10 || p < 0 {
        (acc, p)
    } else if p + 1 > b.len() {
        (acc, p)
    } else {
        let byte = b[p];
        let acc2 = acc | (((byte & 0x7f) as u64) << ((7 * i) as u64));
        if byte & 0x80 == 0 {
            (acc2, p + 1)
        } else {
            varint(b, p + 1, i + 1, acc2)
        }
    }
}

/// The cursor after skipping a string value at `p`: a `u64` length, then that many bytes;
/// a length of 0 or over 100000 stands for an empty string with nothing more to skip.
pub open spec fn skip_string(b: Seq<u8>, p: int) -> int {
    let len = b.len() as int;
    if p + 8 > len {
        after(len, p, 8)
    } else {
        let n = u64_at(b, p) as usize;
        if n == 0 || n > 100000 {
            p + 8
        } else {
            after(len, p + 8, n as int)
        }
    }
}

/// The cursor after skipping an array value at `p`: a variable-length count, a `u32` element
/// type, then up to 10000 `u32` elements.
pub open spec fn skip_array(b: Seq<u8>, p: int) -> int {
    let len = b.len() as int;
    let (n, q) = varint(b, p, 0, 0);
    if q + 4 > len {
        after(len, q, 4)
    } else {
        let m: int = if (n as usize) < 10000 { (n as usize) as int } else { 10000 };
        after(len, q + 4, 4 * m)
    }
}

/// The cursor after skipping a value of type `vt` at `p`; none for an unknown type.
pub open spec fn skip_value(b: Seq<u8>, p: int, vt: u32) -> Option<int> {
    let len = b.len() as int;
    if vt == 0 || vt == 2 || vt == 7 {
        Some(after(len, p, 4))
    } else if vt == 1 || vt == 6 {
        Some(after(len, p, 8))
    } else if vt == 3 {
        Some(after(len, p, 1))
    } else if vt == 4 || vt == 8 {
        Some(skip_string(b, p))
    } else if vt == 5 {
        Some(skip_array(b, p))
    } else {
        None
    }
}

/// A metadata entry at `p`: (key bytes, value type, cursor after it); none when it cannot be
/// read: a key length of 0 or over 10000, a read past the end, or an unknown value type.
pub open spec fn meta_entry(b: Seq<u8>, p: int) -> Option<(Seq<u8>, u32, int)> {
    let len = b.len() as int;
    if p < 0 || p + 4 > len {
        None
    } else {
        let kl = u32_at(b, p) as int;
        if kl == 0 || kl > 10000 || p + 4 + kl + 4 > len {
            None
        } else {
            let q = p + 4 + kl;
            match skip_value(b, q + 4, u32_at(b, q)) {
                Some(r) => Some((b.subrange(p + 4, q), u32_at(b, q), r)),
                None => None,
            }
        }
    }
}

/// Entries `i..count` read from `p` on: (the entries read, whether one could not be read,
/// the cursor after the last one read).
pub open spec fn meta_loop(b: Seq<u8>, p: int, i: int, count: int) -> (Seq<(Seq<u8>, u32)>, bool, int)
    decreases count - i,
{
    if i >= count {
        (Seq::empty(), false, p)
    } else {
        match meta_entry(b, p) {
            None => (Seq::empty(), true, p),
            Some((k, vt, r)) => {
                let rest = meta_loop(b, r, i + 1, count);
                (seq![(k, vt)] + rest.0, rest.1, rest.2)
            },
        }
    }
}

/// A tensor description as read: (name bytes, shape, type, data offset, cursor after it).
pub type TensorEntry = (Seq<u8>, Seq<usize>, u32, usize, int);

/// The tensor description at `p`; none when fewer than 24 bytes are left, when the name
/// length is 0 or over 1000, or when the name or the dimension count runs past the end.
/// Dimensions, type and offset past the end are left out, 0 and 0.
pub open spec fn tensor_entry(b: Seq<u8>, p: int) -> Option<TensorEntry> {
    let len = b.len() as int;
    if p < 0 || p + 24 > len {
        None
    } else {
        let nl = u32_at(b, p) as int;
        if nl == 0 || nl > 1000 || p + 4 + nl + 4 > len {
            None
        } else {
            let q = p + 4 + nl;
            let nd = u32_at(b, q) as int;
            let r = q + 4;
            let k: int = if r + 8 * nd <= len { nd } else { (len - r) / 8 };
            let shape = Seq::new(k as nat, |j: int| u64_at(b, r + 8 * j) as usize);
            let r2 = after(len, r, 8 * nd);
            let dtype: u32 = if r2 + 4 <= len { u32_at(b, r2) } else { 0 };
            let r3 = after(len, r2, 4);
            let offset: usize = if r3 + 8 <= len { u64_at(b, r3) as usize } else { 0 };
            Some((b.subrange(p + 4, q), shape, dtype, offset, after(len, r3, 8)))
        }
    }
}

/// Descriptions `i..count` read from `p` on, until one cannot be read.
pub open spec fn tensor_loop(b: Seq<u8>, p: int, i: int, count: int) -> Seq<TensorEntry>
    decreases count - i,
{
    if i >= count {
        Seq::empty()
    } else {
        match tensor_entry(b, p) {
            None => Seq::empty(),
            Some(e) => seq![e] + tensor_loop(b, e.4, i + 1, count),
        }
    }
}

/// The metadata of a file: read when the header counts between 1 and 99 entries; the
/// descriptions start after them, or at byte 52 when they were not all read.
pub open spec fn gguf_metadata(b: Seq<u8>) -> (Seq<(Seq<u8>, u32)>, int) {
    let mc = u64_at(b, 16) as usize;
    if 0 < mc && mc < 100 {
        let m = meta_loop(b, 24, 0, mc as int);
        (m.0, if m.1 { 52 } else { m.2 })
    } else {
        (Seq::empty(), 52)
    }
}

/// The widest element a tensor type stores per value, as the size check counts it.
pub open spec fn widest(dtype: u32) -> int {
    if dtype == 0 || dtype > 14 {
        4
    } else if dtype == 1 || dtype == 2 {
        2
    } else {
        1
    }
}

/// The byte size of a tensor can be computed: its running products and its widest size fit.
pub open spec fn size_fits(shape: Seq<usize>, dtype: u32) -> bool {
    products_fit(shape) && shape_product(shape) * widest(dtype) <= usize::MAX
}

/// A tensor's data: its bytes from `offset` on, as many as its size and the file allow,
/// padded with zeros to its size; all zeros when the offset is past the end.
pub open spec fn tensor_data(b: Seq<u8>, offset: int, size: int) -> Seq<u8> {
    if offset >= b.len() {
        Seq::new(size as nat, |i: int| 0u8)
    } else {
        let n = if size < b.len() - offset { size } else { b.len() - offset };
        b.subrange(offset, offset + n) + Seq::new((size - n) as nat, |i: int| 0u8)
    }
}

/// What a GGUF header fails on.
#[derive(Debug, Clone, Copy, PartialEq, Eq, Structural)]
pub enum GgufError {
    /// The first four bytes are not `GGUF`.
    NotGguf,
    /// The 24-byte header runs past the end of the file.
    Truncated,
    /// The counts after the metadata run past the end of the file.
    UnexpectedEnd,
}

/// A tensor as read: its name bytes, shape, type, data offset and data.
#[derive(Debug, Clone)]
pub struct GgufTensor {
    pub name: Vec<u8>,
    pub shape: Vec<usize>,
    pub dtype: u32,
    pub offset: usize,
    pub data: Vec<u8>,
}

/// What reading a GGUF file gives: its version, its metadata keys (as bytes) with their value
/// types, and its tensors in file order.
#[derive(Debug, Clone)]
pub struct GgufFile {
    pub version: u32,
    pub metadata: Vec<(Vec<u8>, u32)>,
    pub tensors: Vec<GgufTensor>,
}

/// A tensor as values: (name, shape, type, offset, data).
pub open spec fn tensor_view(t: GgufTensor) -> (Seq<u8>, Seq<usize>, u32, usize, Seq<u8>) {
    (t.name@, t.shape@, t.dtype, t.offset, t.data@)
}

/// The tensors of a file as values, from its descriptions.
pub open spec fn spec_tensors(b: Seq<u8>, es: Seq<TensorEntry>) -> Seq<(Seq<u8>, Seq<usize>, u32, usize, Seq<u8>)> {
    Seq::new(
        es.len(),
        |i: int| (es[i].0, es[i].1, es[i].2, es[i].3, tensor_data(b, es[i].3 as int, spec_tensor_bytes(shape_product(es[i].1), es[i].2))),
    )
}

/// The file's descriptions read from the header's count on.
pub open spec fn spec_entries(b: Seq<u8>) -> Seq<TensorEntry> {
    tensor_loop(b, gguf_metadata(b).1, 0, (u64_at(b, 8) as usize) as int)
}

/// Every description's size can be computed.
pub open spec fn sizes_fit(es: Seq<TensorEntry>) -> bool {
    forall|i: int| 0 <= i < es.len() ==> #[trigger] size_fits(es[i].1, es[i].2)
}

pub(crate) fn copy_bytes(b: &[u8], from: usize, to: usize) -> (r: Vec<u8>)
    requires
        from <= to <= b@.len(),
    ensures
        r@ == b@.subrange(from as int, to as int),
{
    let mut out: Vec<u8> = Vec::new();
    let mut i: usize = from;
    while i < to
        invariant
            from <= i <= to,
            to <= b@.len(),
            out@ == b@.subrange(from as int, i as int),
        decreases to - i,
    {
        out.push(b[i]);
        proof {
            assert(out@ =~= b@.subrange(from as int, i + 1));
        }
        i += 1;
    }
    out
}

pub(crate) fn read_u32_at(b: &[u8], p: usize) -> (r: u32)
    requires
        p + 4 <= b@.len(),
    ensures
        r == u32_at(b@, p as int),
{
    let _l = b.len();
    u32_from_le_bytes(slice_subrange(b, p, p + 4))
}

pub(crate) fn read_u64_at(b: &[u8], p: usize) -> (r: u64)
    requires
        p + 8 <= b@.len(),
    ensures
        r == u64_at(b@, p as int),
{
    let _l = b.len();
    u64_from_le_bytes(slice_subrange(b, p, p + 8))
}

fn after_exec(len: usize, p: usize, k: usize) -> (r: usize)
    ensures
        r == after(len as int, p as int, k as int),
{
    if k <= len && p <= len - k {
        p + k
    } else if p < len {
        len
    } else {
        p
    }
}

pub(crate) fn read_varint(b: &[u8], p: usize) -> (r: (u64, usize))
    ensures
        r.0 == varint(b@, p as int, 0, 0).0,
        r.1 == varint(b@, p as int, 0, 0).1,
{
    let mut acc: u64 = 0;
    let mut q: usize = p;
    let mut i: u64 = 0;
    while i < 10
        invariant
            i <= 10,
            varint(b@, p as int, 0, 0) == varint(b@, q as int, i as int, acc),
        decreases 10 - i,
    {
        if q >= b.len() {
            return (acc, q);
        }
        let byte = b[q];
        let acc2 = acc | (((byte & 0x7f) as u64) << (7 * i));
        if byte & 0x80 == 0 {
            return (acc2, q + 1);
        }
        acc = acc2;
        q = q + 1;
        i = i + 1;
    }
    (acc, q)
}

fn skip_value_exec(b: &[u8], p: usize, vt: u32) -> (r: Option<usize>)
    requires
        p <= b@.len(),
    ensures
        match r {
            Some(x) => skip_value(b@, p as int, vt) == Some(x as int),
            None => skip_value(b@, p as int, vt) is None,
        },
{
    let len = b.len();
    if vt == 0 || vt == 2 || vt == 7 {
        Some(after_exec(len, p, 4))
    } else if vt == 1 || vt == 6 {
        Some(after_exec(len, p, 8))
    } else if vt == 3 {
        Some(after_exec(len, p, 1))
    } else if vt == 4 || vt == 8 {
        if len - p < 8 {
            Some(after_exec(len, p, 8))
        } else {
            let n = read_u64_at(b, p) as usize;
            if n == 0 || n > 100000 {
                Some(p + 8)
            } else {
                Some(after_exec(len, p + 8, n))
            }
        }
    } else if vt == 5 {
        let (n, q) = read_varint(b, p);
        proof {
            lemma_varint_cursor(b@, p as int, 0, 0);
        }
        if len - q < 4 {
            Some(after_exec(len, q, 4))
        } else {
            let m: usize = if (n as usize) < 10000 { n as usize } else { 10000 };
            Some(after_exec(len, q + 4, 4 * m))
        }
    } else {
        None
    }
}

/// The varint's cursor stays within the file when it starts there.
proof fn lemma_varint_cursor(b: Seq<u8>, p: int, i: int, acc: u64)
    requires
        0 <= p <= b.len(),
    ensures
        p <= varint(b, p, i, acc).1 <= b.len(),
    decreases 10 - i,
{
    if i < 10 && p + 1 <= b.len() {
        let byte = b[p];
        let acc2 = acc | (((byte & 0x7f) as u64) << ((7 * i) as u64));
        if byte & 0x80 != 0 {
            lemma_varint_cursor(b, p + 1, i + 1, acc2);
        }
    }
}

fn meta_entry_exec(b: &[u8], p: usize) -> (r: Option<(Vec<u8>, u32, usize)>)
    ensures
        match r {
            Some(e) => meta_entry(b@, p as int) == Some((e.0@, e.1, e.2 as int)),
            None => meta_entry(b@, p as int) is None,
        },
{
    let len = b.len();
    if p > len || len - p < 4 {
        return None;
    }
    let kl = read_u32_at(b, p) as usize;
    if kl == 0 || kl > 10000 || len - p - 4 < kl + 4 {
        return None;
    }
    let q = p + 4 + kl;
    let vt = read_u32_at(b, q);
    match skip_value_exec(b, q + 4, vt) {
        Some(r) => {
            let key = copy_bytes(b, p + 4, q);
            Some((key, vt, r))
        },
        None => None,
    }
}

fn read_metadata(b: &[u8]) -> (r: (Vec<(Vec<u8>, u32)>, usize))
    requires
        b@.len() >= 24,
    ensures
        r.0@.map_values(|e: (Vec<u8>, u32)| (e.0@, e.1)) == gguf_metadata(b@).0,
        r.1 == gguf_metadata(b@).1,
{
    let mc = read_u64_at(b, 16) as usize;
    let mut out: Vec<(Vec<u8>, u32)> = Vec::new();
    if !(0 < mc && mc < 100) {
        assert(out@.map_values(|e: (Vec<u8>, u32)| (e.0@, e.1)) =~= Seq::<(Seq<u8>, u32)>::empty());
        return (out, 52);
    }
    let ghost full = meta_loop(b@, 24, 0, mc as int);
    let mut p: usize = 24;
    let mut i: usize = 0;
    assert(out@.map_values(|e: (Vec<u8>, u32)| (e.0@, e.1)) + meta_loop(b@, 24, 0, mc as int).0 =~= full.0);
    while i < mc
        invariant
            i <= mc,
            0 < mc < 100,
            mc == (u64_at(b@, 16) as usize),
            p <= b@.len(),
            full == meta_loop(b@, 24, 0, mc as int),
            full.0 == out@.map_values(|e: (Vec<u8>, u32)| (e.0@, e.1)) + meta_loop(b@, p as int, i as int, mc as int).0,
            full.1 == meta_loop(b@, p as int, i as int, mc as int).1,
            full.2 == meta_loop(b@, p as int, i as int, mc as int).2,
        decreases mc - i,
    {
        let ghost before = out@.map_values(|e: (Vec<u8>, u32)| (e.0@, e.1));
        match meta_entry_exec(b, p) {
            None => {
                assert(meta_loop(b@, p as int, i as int, mc as int) == (Seq::<(Seq<u8>, u32)>::empty(), true, p as int));
                assert(before + Seq::<(Seq<u8>, u32)>::empty() =~= before);
                return (out, 52);
            },
            Some((k, vt, r)) => {
                proof {
                    lemma_meta_entry_cursor(b@, p as int);
                    assert(out@.push((k, vt)).map_values(|e: (Vec<u8>, u32)| (e.0@, e.1)) =~= before.push((k@, vt)));
                    assert(before + (seq![(k@, vt)] + meta_loop(b@, r as int, i + 1, mc as int).0) =~= before.push((k@, vt))
                        + meta_loop(b@, r as int, i + 1, mc as int).0);
                }
                out.push((k, vt));
                p = r;
                i += 1;
            },
        }
    }
    assert(out@.map_values(|e: (Vec<u8>, u32)| (e.0@, e.1)) + Seq::<(Seq<u8>, u32)>::empty() =~= out@.map_values(
        |e: (Vec<u8>, u32)| (e.0@, e.1),
    ));
    (out, p)
}

/// An entry read from inside the file ends inside it.
proof fn lemma_meta_entry_cursor(b: Seq<u8>, p: int)
    requires
        0 <= p <= b.len(),
        meta_entry(b, p) is Some,
    ensures
        meta_entry(b, p).unwrap().2 <= b.len(),
{
    let kl = u32_at(b, p) as int;
    let q = p + 4 + kl;
    if u32_at(b, q) == 5 {
        lemma_varint_cursor(b, q + 4, 0, 0);
    }
}

fn tensor_entry_exec(b: &[u8], p: usize) -> (r: Option<(Vec<u8>, Vec<usize>, u32, usize, usize)>)
    ensures
        match r {
            Some(e) => tensor_entry(b@, p as int) == Some((e.0@, e.1@, e.2, e.3, e.4 as int)) && e.4 <= b@.len(),
            None => tensor_entry(b@, p as int) is None,
        },
{
    let len = b.len();
    if p > len || len - p < 24 {
        return None;
    }
    let nl = read_u32_at(b, p) as usize;
    if nl == 0 || nl > 1000 || len - p - 4 < nl + 4 {
        return None;
    }
    let q = p + 4 + nl;
    let nd = read_u32_at(b, q) as usize;
    let r = q + 4;
    let avail = (len - r) / 8;
    let k: usize = if nd <= avail { nd } else { avail };
    proof {
        assert(nd <= avail <==> r + 8 * nd <= len) by (nonlinear_arith)
            requires
                avail == (len - r) / 8,
                r <= len,
                nd >= 0,
        ;
    }
    let mut shape: Vec<usize> = Vec::new();
    let mut j: usize = 0;
    while j < k
        invariant
            j <= k,
            k * 8 <= len - r,
            r <= len,
            len == b@.len(),
            shape@ == Seq::new(j as nat, |x: int| u64_at(b@, r + 8 * x) as usize),
        decreases k - j,
    {
        proof {
            assert(r + 8 * j + 8 <= len) by (nonlinear_arith)
                requires
                    j < k,
                    k * 8 <= len - r,
            ;
        }
        shape.push(read_u64_at(b, r + 8 * j) as usize);
        proof {
            assert(shape@ =~= Seq::new((j + 1) as nat, |x: int| u64_at(b@, r + 8 * x) as usize));
        }
        j += 1;
    }
    proof {
        assert(k * 8 <= len - r) by (nonlinear_arith)
            requires
                k <= avail,
                avail == (len - r) / 8,
                r <= len,
        ;
    }
    let r2 = if nd <= avail { r + 8 * nd } else { len };
    let dtype: u32 = if len - r2 >= 4 { read_u32_at(b, r2) } else { 0 };
    let r3 = after_exec(len, r2, 4);
    let offset: usize = if len - r3 >= 8 { read_u64_at(b, r3) as usize } else { 0 };
    let r4 = after_exec(len, r3, 8);
    let name = copy_bytes(b, p + 4, q);
    Some((name, shape, dtype, offset, r4))
}

fn tensor_size_checked(shape: &Vec<usize>, dtype: u32) -> (r: Option<usize>)
    ensures
        match r {
            Some(n) => size_fits(shape@, dtype) && n == spec_tensor_bytes(shape_product(shape@), dtype),
            None => !size_fits(shape@, dtype),
        },
{
    let mut n: usize = 1;
    let mut k: usize = 0;
    proof {
        assert(shape@.take(0) =~= Seq::<usize>::empty());
    }
    while k < shape.len()
        invariant
            k <= shape@.len(),
            n == shape_product(shape@.take(k as int)),
            forall|j: int| 0 <= j <= k ==> #[trigger] shape_product(shape@.take(j)) <= usize::MAX,
        decreases shape@.len() - k,
    {
        proof {
            assert(shape@.take(k + 1).drop_last() =~= shape@.take(k as int));
        }
        match n.checked_mul(shape[k]) {
            Some(m) => {
                n = m;
            },
            None => {
                proof {
                    assert(shape@.take(k + 1).last() == shape@[k as int]);
                    assert(shape_product(shape@.take(k + 1)) == n * shape@[k as int]);
                }
                return None;
            },
        }
        k += 1;
    }
    proof {
        assert(shape@.take(shape@.len() as int) =~= shape@);
    }
    let w: usize = if dtype == 0 || dtype > 14 {
        4
    } else if dtype == 1 || dtype == 2 {
        2
    } else {
        1
    };
    if n.checked_mul(w).is_none() {
        return None;
    }
    proof {
        lemma_tensor_bytes_bounded(n as int, dtype);
    }
    Some(calculate_tensor_size(shape.as_slice(), dtype))
}

proof fn lemma_tensor_bytes_bounded(n: int, dtype: u32)
    requires
        n >= 0,
    ensures
        0 <= spec_tensor_bytes(n, dtype) <= n * widest(dtype),
{
    assert((n / 16) * 4 + n / 4 <= n) by (nonlinear_arith)
        requires
            n >= 0,
    ;
    assert((n / 64) * 6 + n / 2 <= n) by (nonlinear_arith)
        requires
            n >= 0,
    ;
    assert((n / 256) * 2 + n / 8 <= n) by (nonlinear_arith)
        requires
            n >= 0,
    ;
    assert((n / 64) * 2 + n / 8 <= n) by (nonlinear_arith)
        requires
            n >= 0,
    ;
    assert((n / 16) * 3 + n / 4 <= n) by (nonlinear_arith)
        requires
            n >= 0,
    ;
    assert((n / 16) * 2 + n / 4 <= n) by (nonlinear_arith)
        requires
            n >= 0,
    ;
    assert(n / 256 + n / 8 <= n) by (nonlinear_arith)
        requires
            n >= 0,
    ;
}

fn zeros_onto(out: &mut Vec<u8>, count: usize)
    ensures
        final(out)@ == old(out)@ + Seq::new(count as nat, |x: int| 0u8),
{
    let mut i: usize = 0;
    while i < count
        invariant
            i <= count,
            out@ == old(out)@ + Seq::new(i as nat, |x: int| 0u8),
        decreases count - i,
    {
        out.push(0);
        proof {
            assert(out@ =~= old(out)@ + Seq::new((i + 1) as nat, |x: int| 0u8));
        }
        i += 1;
    }
}

fn read_tensor_data(b: &[u8], offset: usize, size: usize) -> (r: Vec<u8>)
    ensures
        r@ == tensor_data(b@, offset as int, size as int),
{
    let len = b.len();
    if offset >= len {
        let mut out: Vec<u8> = Vec::new();
        zeros_onto(&mut out, size);
        assert(out@ =~= Seq::new(size as nat, |x: int| 0u8));
        return out;
    }
    let n: usize = if size < len - offset { size } else { len - offset };
    let mut out = copy_bytes(b, offset, offset + n);
    zeros_onto(&mut out, size - n);
    out
}

/// Reads a GGUF file from its bytes: the 24-byte header (magic `GGUF`, version, tensor count,
/// metadata count), the metadata entries, the tensor descriptions, and each tensor's data
/// (see `tensor_data`). Fails when the header is short or the magic is wrong; none when a
/// tensor's size does not fit in a `usize`.
pub fn parse_gguf(bytes: &[u8]) -> (r: Option<Result<GgufFile, GgufError>>)
    ensures
        bytes@.len() < 4 ==> r == Some(Err::<GgufFile, GgufError>(GgufError::Truncated)),
        bytes@.len() >= 4 && u32_at(bytes@, 0) != 0x46554747 ==> r == Some(
            Err::<GgufFile, GgufError>(GgufError::NotGguf),
        ),
        bytes@.len() >= 4 && u32_at(bytes@, 0) == 0x46554747 && bytes@.len() < 24 ==> r == Some(
            Err::<GgufFile, GgufError>(GgufError::Truncated),
        ),
        bytes@.len() >= 24 && u32_at(bytes@, 0) == 0x46554747 ==> {
            let es = spec_entries(bytes@);
            &&& (r is None <==> !sizes_fit(es))
            &&& r matches Some(Ok(f)) ==> {
                &&& f.version == u32_at(bytes@, 4)
                &&& f.metadata@.map_values(|e: (Vec<u8>, u32)| (e.0@, e.1)) == gguf_metadata(bytes@).0
                &&& f.tensors@.map_values(|t: GgufTensor| tensor_view(t)) == spec_tensors(bytes@, es)
            }
            &&& !(r matches Some(Err(_)))
        },
{
    let len = bytes.len();
    if len < 4 {
        return Some(Err(GgufError::Truncated));
    }
    if read_u32_at(bytes, 0) != 0x46554747 {
        return Some(Err(GgufError::NotGguf));
    }
    if len < 24 {
        return Some(Err(GgufError::Truncated));
    }
    let version = read_u32_at(bytes, 4);
    let count = read_u64_at(bytes, 8) as usize;
    let (metadata, start) = read_metadata(bytes);
    let ghost es = spec_entries(bytes@);
    let mut tensors: Vec<GgufTensor> = Vec::new();
    let mut p: usize = start;
    let mut i: usize = 0;
    let ghost mut done: Seq<TensorEntry> = Seq::empty();
    assert(tensors@.map_values(|t: GgufTensor| tensor_view(t)) =~= spec_tensors(bytes@, done));
    assert(es == done + tensor_loop(bytes@, p as int, i as int, count as int));
    while i < count
        invariant
            len == bytes@.len(),
            len >= 24,
            u32_at(bytes@, 0) == 0x46554747,
            version == u32_at(bytes@, 4),
            count == (u64_at(bytes@, 8) as usize),
            metadata@.map_values(|e: (Vec<u8>, u32)| (e.0@, e.1)) == gguf_metadata(bytes@).0,
            es == spec_entries(bytes@),
            es == done + tensor_loop(bytes@, p as int, i as int, count as int),
            sizes_fit(done),
            tensors@.map_values(|t: GgufTensor| tensor_view(t)) == spec_tensors(bytes@, done),
        decreases count - i,
    {
        match tensor_entry_exec(bytes, p) {
            None => {
                assert(tensor_loop(bytes@, p as int, i as int, count as int) == Seq::<TensorEntry>::empty());
                assert(es =~= done);
                return Some(Ok(GgufFile { version, metadata, tensors }));
            },
            Some((name, shape, dtype, offset, next)) => {
                let ghost e = (name@, shape@, dtype, offset, next as int);
                match tensor_size_checked(&shape, dtype) {
                    None => {
                        proof {
                            assert(tensor_loop(bytes@, p as int, i as int, count as int) == seq![e] + tensor_loop(
                                bytes@,
                                next as int,
                                i + 1,
                                count as int,
                            ));
                            assert(es[done.len() as int] == e);
                            assert(!size_fits(es[done.len() as int].1, es[done.len() as int].2));
                        }
                        return None;
                    },
                    Some(size) => {
                        let data = read_tensor_data(bytes, offset, size);
                        let t = GgufTensor { name, shape, dtype, offset, data };
                        proof {
                            let old_v = tensors@.map_values(|t: GgufTensor| tensor_view(t));
                            let new_v = tensors@.push(t).map_values(|t: GgufTensor| tensor_view(t));
                            let want = spec_tensors(bytes@, done.push(e));
                            assert(size as int == spec_tensor_bytes(shape_product(e.1), e.2));
                            assert(old_v.len() == spec_tensors(bytes@, done).len());
                            assert(tensors@.len() == done.len());
                            assert forall|j: int| 0 <= j < new_v.len() implies new_v[j] == want[j] by {
                                if j < done.len() {
                                    assert(done.push(e)[j] == done[j]);
                                    assert(tensors@.push(t)[j] == tensors@[j]);
                                    assert(new_v[j] == old_v[j]);
                                    assert(old_v[j] == spec_tensors(bytes@, done)[j]);
                                } else {
                                    assert(j == done.len());
                                    assert(done.push(e)[j] == e);
                                    assert(tensors@.push(t)[j] == t);
                                    assert(new_v[j] == tensor_view(t));
                                }
                            }
                            assert(new_v =~= want);
                            assert(done + tensor_loop(bytes@, p as int, i as int, count as int) =~= done.push(e)
                                + tensor_loop(bytes@, next as int, i + 1, count as int));
                            assert forall|j: int| 0 <= j < done.push(e).len() implies #[trigger] size_fits(
                                done.push(e)[j].1,
                                done.push(e)[j].2,
                            ) by {
                                if j < done.len() {
                                    assert(done.push(e)[j] == done[j]);
                                }
                            }
                            done = done.push(e);
                        }
                        tensors.push(t);
                        p = next;
                        i += 1;
                    },
                }
            },
        }
    }
    assert(es =~= done);
    Some(Ok(GgufFile { version, metadata, tensors }))
}

/// What `String::from_utf8_lossy` makes of some bytes: a function of the bytes alone.
pub uninterp spec fn spec_utf8_lossy(bytes: Seq<u8>) -> Seq<char>;

/// `String::from_utf8_lossy`: the bytes as text, invalid sequences replaced.
#[verifier::external_body]
pub(crate) fn lossy_text(bytes: &[u8]) -> (r: String)
    ensures
        r@ == spec_utf8_lossy(bytes@),
{
    String::from_utf8_lossy(bytes).to_string()
}

/// A tensor's name as text.
pub fn tensor_name(t: &GgufTensor) -> (r: String)
    ensures
        r@ == spec_utf8_lossy(t.name@),
{
    lossy_text(t.name.as_slice())
}

/// A metadata key as text.
pub fn metadata_key(key: &Vec<u8>) -> (r: String)
    ensures
        r@ == spec_utf8_lossy(key@),
{
    lossy_text(key.as_slice())
}

/// The model dimensions the metadata keys give.
#[derive(Debug, Clone, Copy, PartialEq, Eq, Structural)]
pub struct MetadataDims {
    pub hidden_size: usize,
    pub intermediate_size: usize,
    pub num_layers: usize,
    pub num_heads: usize,
    pub num_kv_heads: usize,
    pub max_seq_len: usize,
    pub head_dim: usize,
}

/// `v` when a number was found in the key, `old` otherwise.
pub open spec fn num_or(found: Option<usize>, old: usize) -> usize {
    match found {
        Some(v) => v,
        None => old,
    }
}

/// The key names a field when it holds either marker.
pub open spec fn names(key: Seq<char>, a: Seq<char>, b: Seq<char>) -> bool {
    seq_contains_seq(key, a) || seq_contains_seq(key, b)
}

/// The dimensions after one key: each field whose markers the key holds takes the number in
/// the key, when there is one.
pub open spec fn dims_after_key(d: MetadataDims, key: Seq<char>) -> MetadataDims {
    let n = spec_extract_num(key);
    MetadataDims {
        hidden_size: if names(key, "hidden_size"@, "llama.hidden_size"@) { num_or(n, d.hidden_size) } else { d.hidden_size },
        intermediate_size: if names(key, "intermediate_size"@, "llama.intermediate_size"@) {
            num_or(n, d.intermediate_size)
        } else {
            d.intermediate_size
        },
        num_layers: if names(key, "num_hidden_layers"@, "n_layers"@) { num_or(n, d.num_layers) } else { d.num_layers },
        num_heads: if names(key, "num_attention_heads"@, "n_heads"@) { num_or(n, d.num_heads) } else { d.num_heads },
        num_kv_heads: if names(key, "num_key_value_heads"@, "n_kv_heads"@) {
            num_or(n, d.num_kv_heads)
        } else {
            d.num_kv_heads
        },
        max_seq_len: if names(key, "max_position"@, "n_ctx"@) { num_or(n, d.max_seq_len) } else { d.max_seq_len },
        head_dim: d.head_dim,
    }
}

/// The dimensions after the keys `keys[0..n]`, in order.
pub open spec fn dims_after_keys(d: MetadataDims, keys: Seq<Seq<char>>, n: int) -> MetadataDims
    decreases n,
{
    if n <= 0 {
        d
    } else {
        dims_after_key(dims_after_keys(d, keys, n - 1), keys[n - 1])
    }
}

/// A head size of 0 is filled in as the hidden size over the number of heads (at least 1).
pub open spec fn with_head_dim(d: MetadataDims) -> MetadataDims {
    if d.head_dim == 0 {
        MetadataDims { head_dim: d.hidden_size / (if d.num_heads > 1 { d.num_heads } else { 1 }), ..d }
    } else {
        d
    }
}

fn key_names(key: &Vec<char>, a: &str, b: &str) -> (r: bool)
    ensures
        r == names(key@, a@, b@),
{
    contains_chars(key, &chars_of(a)) || contains_chars(key, &chars_of(b))
}

/// Reads the model dimensions from metadata keys, in the order given, starting from `start`:
/// each key that holds a field's marker sets that field to the number in the key (when it has
/// one), a later key overriding an earlier; then a head size of 0 becomes the hidden size over
/// the number of heads.
pub fn dims_from_keys(start: MetadataDims, keys: &[String]) -> (r: MetadataDims)
    ensures
        r == with_head_dim(dims_after_keys(start, keys@.map_values(|k: String| k@), keys@.len() as int)),
{
    let ghost ks = keys@.map_values(|k: String| k@);
    let mut d = start;
    let mut i: usize = 0;
    while i < keys.len()
        invariant
            i <= keys@.len(),
            ks == keys@.map_values(|k: String| k@),
            d == dims_after_keys(start, ks, i as int),
        decreases keys@.len() - i,
    {
        let key = chars_of(keys[i].as_str());
        let n = extract_num(keys[i].as_str());
        assert(key@ == ks[i as int]);
        if key_names(&key, "hidden_size", "llama.hidden_size") {
            if let Some(v) = n {
                d.hidden_size = v;
            }
        }
        if key_names(&key, "intermediate_size", "llama.intermediate_size") {
            if let Some(v) = n {
                d.intermediate_size = v;
            }
        }
        if key_names(&key, "num_hidden_layers", "n_layers") {
            if let Some(v) = n {
                d.num_layers = v;
            }
        }
        if key_names(&key, "num_attention_heads", "n_heads") {
            if let Some(v) = n {
                d.num_heads = v;
            }
        }
        if key_names(&key, "num_key_value_heads", "n_kv_heads") {
            if let Some(v) = n {
                d.num_kv_heads = v;
            }
        }
        if key_names(&key, "max_position", "n_ctx") {
            if let Some(v) = n {
                d.max_seq_len = v;
            }
        }
        i += 1;
    }
    assert(ks.len() == keys@.len());
    if d.head_dim == 0 {
        let h = if d.num_heads > 1 { d.num_heads } else { 1 };
        d.head_dim = d.hidden_size / h;
    }
    d
}

// The memory-mapped layout: the metadata count sits in the last 8 bytes, the entries start at
// byte 8 with strings of a variable-length size, a `u32` tensor count and a `u32` alignment
// follow the metadata, and a tensor is kept when its data lies inside the file.

/// A string at `p`: a variable-length size, then that many bytes; empty, with nothing more
/// read, when the size is 0, over 10000, or runs past the end.
pub open spec fn mstring(b: Seq<u8>, p: int) -> (Seq<u8>, int) {
    let (n0, q) = varint(b, p, 0, 0);
    let n = n0 as usize;
    if n == 0 || n > 10000 || q + n > b.len() {
        (Seq::empty(), q)
    } else {
        (b.subrange(q, q + n), q + n)
    }
}

/// The cursor after an array value at `p`: a variable-length count, four bytes of element
/// type, then as many four-byte elements as the count and the file allow.
pub open spec fn mskip_array(b: Seq<u8>, p: int) -> int {
    let (n0, q) = varint(b, p, 0, 0);
    if q + 4 > b.len() {
        q
    } else {
        let r = q + 4;
        let avail = (b.len() - r) / 4;
        let n = (n0 as usize) as int;
        r + 4 * (if n < avail { n } else { avail })
    }
}

/// A metadata entry at `p`: (whether the reading stops here, key bytes, value type, cursor).
/// It stops when the value type runs past the end, at the cursor after the key.
pub open spec fn mmeta_entry(b: Seq<u8>, p: int) -> (bool, Seq<u8>, u32, int) {
    let (key, q) = mstring(b, p);
    if q + 4 > b.len() {
        (true, key, 0, q)
    } else {
        let vt = u32_at(b, q);
        let r = q + 4;
        let next = if vt == 0 || vt == 2 {
            r + 4
        } else if vt == 1 {
            r + 8
        } else if vt == 3 {
            r + 1
        } else if vt == 4 {
            mstring(b, r).1
        } else if vt == 5 {
            mskip_array(b, r)
        } else {
            r
        };
        (false, key, vt, next)
    }
}

/// Entries `i..count` from `p` on: (the entries read, the cursor after them).
pub open spec fn mmeta_loop(b: Seq<u8>, p: int, i: int, count: int) -> (Seq<(Seq<u8>, u32)>, int)
    decreases count - i,
{
    if i >= count {
        (Seq::empty(), p)
    } else {
        let e = mmeta_entry(b, p);
        if e.0 {
            (Seq::empty(), e.3)
        } else {
            let rest = mmeta_loop(b, e.3, i + 1, count);
            (seq![(e.1, e.2)] + rest.0, rest.1)
        }
    }
}

/// A tensor description at `p`: (whether the reading stops here, name, shape, type, data
/// offset, cursor). Dimensions are read as long as the file allows; it stops when the
/// dimension count, or the type and offset, run past the end.
pub open spec fn mtensor_entry(b: Seq<u8>, p: int) -> (bool, Seq<u8>, Seq<usize>, u32, usize, int) {
    let len = b.len() as int;
    let (name, q) = mstring(b, p);
    if q + 4 > len {
        (true, name, Seq::empty(), 0, 0, q)
    } else {
        let nd = u32_at(b, q) as int;
        let r = q + 4;
        let avail = (len - r) / 8;
        let k = if nd < avail { nd } else { avail };
        let shape = Seq::new(k as nat, |j: int| u64_at(b, r + 8 * j) as usize);
        let r2 = r + 8 * k;
        if r2 + 12 > len {
            (true, name, shape, 0, 0, r2)
        } else {
            (false, name, shape, u32_at(b, r2), u64_at(b, r2 + 4) as usize, r2 + 12)
        }
    }
}

/// A tensor description as the memory-mapped reader keeps it: (name, shape, type, offset).
pub type MTensor = (Seq<u8>, Seq<usize>, u32, usize);

/// Descriptions `i..count` from `p` on, until one stops the reading.
pub open spec fn mtensor_loop(b: Seq<u8>, p: int, i: int, count: int) -> Seq<MTensor>
    decreases count - i,
{
    if i >= count {
        Seq::empty()
    } else {
        let e = mtensor_entry(b, p);
        if e.0 {
            Seq::empty()
        } else {
            seq![(e.1, e.2, e.3, e.4)] + mtensor_loop(b, e.5, i + 1, count)
        }
    }
}

/// The bytes a description's tensor takes.
pub open spec fn mtensor_size(e: MTensor) -> int {
    spec_tensor_bytes(shape_product(e.1), e.2)
}

/// Reading a description's tensor would overflow: its size, or its end inside the file.
pub open spec fn mtensor_overflows(len: int, e: MTensor) -> bool {
    !size_fits(e.1, e.2) || (e.3 < len && e.3 + mtensor_size(e) > usize::MAX)
}

/// The description's data lies inside the file.
pub open spec fn mtensor_inside(len: int, e: MTensor) -> bool {
    e.3 < len && e.3 + mtensor_size(e) <= len
}

/// The tensors kept from descriptions `es[0..n]`: those whose data lies inside the file, with
/// that data.
pub open spec fn mkept(b: Seq<u8>, es: Seq<MTensor>, n: int) -> Seq<(Seq<u8>, Seq<usize>, u32, usize, Seq<u8>)>
    decreases n,
{
    if n <= 0 {
        Seq::empty()
    } else {
        let rest = mkept(b, es, n - 1);
        let e = es[n - 1];
        if mtensor_inside(b.len() as int, e) {
            rest.push((e.0, e.1, e.2, e.3, b.subrange(e.3 as int, e.3 + mtensor_size(e))))
        } else {
            rest
        }
    }
}

/// The metadata count of the memory-mapped layout: the last eight bytes.
pub open spec fn mmeta_count(b: Seq<u8>) -> usize {
    u64_at(b, b.len() - 8) as usize
}

/// The metadata as the memory-mapped layout reads it, and the cursor after it.
pub open spec fn mmeta(b: Seq<u8>) -> (Seq<(Seq<u8>, u32)>, int) {
    mmeta_loop(b, 8, 0, mmeta_count(b) as int)
}

/// The tensor descriptions as the memory-mapped layout reads them.
pub open spec fn mentries(b: Seq<u8>) -> Seq<MTensor> {
    let p = mmeta(b).1;
    mtensor_loop(b, p + 8, 0, u32_at(b, p) as int)
}

pub(crate) proof fn lemma_varint_bound(b: Seq<u8>, p: int, i: int, acc: u64)
    requires
        0 <= p,
    ensures
        p <= varint(b, p, i, acc).1,
        varint(b, p, i, acc).1 <= if p <= b.len() { b.len() as int } else { p },
    decreases 10 - i,
{
    if i < 10 && p + 1 <= b.len() {
        let byte = b[p];
        let acc2 = acc | (((byte & 0x7f) as u64) << ((7 * i) as u64));
        if byte & 0x80 != 0 {
            lemma_varint_bound(b, p + 1, i + 1, acc2);
        }
    }
}

fn mstring_exec(b: &[u8], p: usize) -> (r: (Vec<u8>, usize))
    requires
        b@.len() <= isize::MAX,
        p <= b@.len() + 8,
    ensures
        r.0@ == mstring(b@, p as int).0,
        r.1 == mstring(b@, p as int).1,
        p <= r.1 <= (if p <= b@.len() { b@.len() as int } else { p as int }),
{
    let len = b.len();
    let (n0, q) = read_varint(b, p);
    proof {
        lemma_varint_bound(b@, p as int, 0, 0);
    }
    let n = n0 as usize;
    if n == 0 || n > 10000 || q > len || len - q < n {
        (Vec::new(), q)
    } else {
        (copy_bytes(b, q, q + n), q + n)
    }
}

fn mskip_array_exec(b: &[u8], p: usize) -> (r: usize)
    requires
        b@.len() <= isize::MAX,
        p <= b@.len() + 8,
    ensures
        r == mskip_array(b@, p as int),
        r <= b@.len() + 8,
{
    let len = b.len();
    let (n0, q) = read_varint(b, p);
    proof {
        lemma_varint_bound(b@, p as int, 0, 0);
    }
    if q > len || len - q < 4 {
        q
    } else {
        let r = q + 4;
        let avail = (len - r) / 4;
        let n = n0 as usize;
        let k = if n < avail { n } else { avail };
        proof {
            assert(4 * k <= len - r) by (nonlinear_arith)
                requires
                    k <= avail,
                    avail == (len - r) / 4,
                    r <= len,
            ;
        }
        r + 4 * k
    }
}

fn mmeta_entry_exec(b: &[u8], p: usize) -> (r: (bool, Vec<u8>, u32, usize))
    requires
        b@.len() <= isize::MAX,
        p <= b@.len() + 8,
    ensures
        r.0 == mmeta_entry(b@, p as int).0,
        r.1@ == mmeta_entry(b@, p as int).1,
        r.2 == mmeta_entry(b@, p as int).2,
        r.3 == mmeta_entry(b@, p as int).3,
        r.3 <= b@.len() + 8,
{
    let len = b.len();
    let (key, q) = mstring_exec(b, p);
    if q > len || len - q < 4 {
        return (true, key, 0, q);
    }
    let vt = read_u32_at(b, q);
    let r = q + 4;
    let next = if vt == 0 || vt == 2 {
        r + 4
    } else if vt == 1 {
        r + 8
    } else if vt == 3 {
        r + 1
    } else if vt == 4 {
        mstring_exec(b, r).1
    } else if vt == 5 {
        mskip_array_exec(b, r)
    } else {
        r
    };
    (false, key, vt, next)
}

fn mtensor_entry_exec(b: &[u8], p: usize) -> (r: (bool, Vec<u8>, Vec<usize>, u32, usize, usize))
    requires
        b@.len() <= isize::MAX,
        p <= b@.len() + 8,
    ensures
        r.0 == mtensor_entry(b@, p as int).0,
        r.1@ == mtensor_entry(b@, p as int).1,
        r.2@ == mtensor_entry(b@, p as int).2,
        r.3 == mtensor_entry(b@, p as int).3,
        r.4 == mtensor_entry(b@, p as int).4,
        r.5 == mtensor_entry(b@, p as int).5,
        r.5 <= b@.len() + 8,
{
    let len = b.len();
    let (name, q) = mstring_exec(b, p);
    if q > len || len - q < 4 {
        return (true, name, Vec::new(), 0, 0, q);
    }
    let nd = read_u32_at(b, q) as usize;
    let r = q + 4;
    let avail = (len - r) / 8;
    let k = if nd < avail { nd } else { avail };
    proof {
        assert(8 * k <= len - r) by (nonlinear_arith)
            requires
                k <= avail,
                avail == (len - r) / 8,
                r <= len,
        ;
    }
    let mut shape: Vec<usize> = Vec::new();
    let mut j: usize = 0;
    while j < k
        invariant
            j <= k,
            8 * k <= len - r,
            r <= len,
            len == b@.len(),
            shape@ == Seq::new(j as nat, |x: int| u64_at(b@, r + 8 * x) as usize),
        decreases k - j,
    {
        proof {
            assert(r + 8 * j + 8 <= len) by (nonlinear_arith)
                requires
                    j < k,
                    8 * k <= len - r,
            ;
        }
        shape.push(read_u64_at(b, r + 8 * j) as usize);
        proof {
            assert(shape@ =~= Seq::new((j + 1) as nat, |x: int| u64_at(b@, r + 8 * x) as usize));
        }
        j += 1;
    }
    let r2 = r + 8 * k;
    if len - r2 < 12 {
        return (true, name, shape, 0, 0, r2);
    }
    let dtype = read_u32_at(b, r2);
    let off = read_u64_at(b, r2 + 4) as usize;
    (false, name, shape, dtype, off, r2 + 12)
}

/// Reads a GGUF file laid out for memory mapping from its bytes (see `mmeta` and
/// `mentries`): the magic `GGUF`, the metadata entries from byte 8 (their count in the last
/// eight bytes), a `u32` tensor count and alignment, the tensor descriptions, and the data of
/// each tensor that lies inside the file. Fails when the magic is wrong, or when the counts
/// after the metadata run past the end; none when the file is shorter than its magic and
/// count, or when a tensor's size or end does not fit in a `usize`.
pub fn parse_gguf_mmap(bytes: &[u8]) -> (r: Option<Result<GgufFile, GgufError>>)
    requires
        bytes@.len() <= isize::MAX,
    ensures
        bytes@.len() < 4 ==> r is None,
        bytes@.len() >= 4 && u32_at(bytes@, 0) != 0x46554747 ==> r == Some(Err::<GgufFile, GgufError>(GgufError::NotGguf)),
        bytes@.len() >= 4 && bytes@.len() < 8 && u32_at(bytes@, 0) == 0x46554747 ==> r is None,
        bytes@.len() >= 8 && u32_at(bytes@, 0) == 0x46554747 ==> {
            let m = mmeta(bytes@);
            &&& m.1 + 8 > bytes@.len() ==> r == Some(Err::<GgufFile, GgufError>(GgufError::UnexpectedEnd))
            &&& m.1 + 8 <= bytes@.len() ==> {
                let es = mentries(bytes@);
                &&& (r is None <==> exists|i: int| 0 <= i < es.len() && #[trigger] mtensor_overflows(bytes@.len() as int, es[i]))
                &&& r matches Some(Ok(f)) ==> {
                    &&& f.version == u32_at(bytes@, 4)
                    &&& f.metadata@.map_values(|e: (Vec<u8>, u32)| (e.0@, e.1)) == m.0
                    &&& f.tensors@.map_values(|t: GgufTensor| tensor_view(t)) == mkept(bytes@, es, es.len() as int)
                }
                &&& !(r matches Some(Err(_)))
            }
        },
{
    let len = bytes.len();
    if len < 4 {
        return None;
    }
    if read_u32_at(bytes, 0) != 0x46554747 {
        return Some(Err(GgufError::NotGguf));
    }
    if len < 8 {
        return None;
    }
    let version = read_u32_at(bytes, 4);
    let mc = read_u64_at(bytes, len - 8) as usize;
    let ghost full = mmeta_loop(bytes@, 8, 0, mc as int);
    let mut metadata: Vec<(Vec<u8>, u32)> = Vec::new();
    let mut p: usize = 8;
    let mut i: usize = 0;
    assert(metadata@.map_values(|e: (Vec<u8>, u32)| (e.0@, e.1)) + full.0 =~= full.0);
    loop
        invariant
            len == bytes@.len(),
            len >= 8,
            len <= isize::MAX,
            i <= mc,
            p <= len + 8,
            mc == mmeta_count(bytes@),
            full == mmeta(bytes@),
            full.0 == metadata@.map_values(|e: (Vec<u8>, u32)| (e.0@, e.1)) + mmeta_loop(bytes@, p as int, i as int, mc as int).0,
            full.1 == mmeta_loop(bytes@, p as int, i as int, mc as int).1,
            u32_at(bytes@, 0) == 0x46554747,
            version == u32_at(bytes@, 4),
        ensures
            i >= mc,
            full.0 == metadata@.map_values(|e: (Vec<u8>, u32)| (e.0@, e.1)) + mmeta_loop(bytes@, p as int, i as int, mc as int).0,
            full.1 == mmeta_loop(bytes@, p as int, i as int, mc as int).1,
            p <= len + 8,
        decreases mc - i,
    {
        if i >= mc {
            break;
        }
        let ghost before = metadata@.map_values(|e: (Vec<u8>, u32)| (e.0@, e.1));
        let (stop, key, vt, next) = mmeta_entry_exec(bytes, p);
        if stop {
            proof {
                assert(before + Seq::<(Seq<u8>, u32)>::empty() =~= before);
            }
            p = next;
            proof {
                assert(mmeta_loop(bytes@, p as int, mc as int, mc as int) == (Seq::<(Seq<u8>, u32)>::empty(), p as int));
            }
            i = mc;
            break;
        }
        proof {
            assert(metadata@.push((key, vt)).map_values(|e: (Vec<u8>, u32)| (e.0@, e.1)) =~= before.push((key@, vt)));
            assert(before + (seq![(key@, vt)] + mmeta_loop(bytes@, next as int, i + 1, mc as int).0) =~= before.push((key@, vt))
                + mmeta_loop(bytes@, next as int, i + 1, mc as int).0);
        }
        metadata.push((key, vt));
        p = next;
        i += 1;
    }
    assert(mmeta_loop(bytes@, p as int, i as int, mc as int).0 =~= Seq::<(Seq<u8>, u32)>::empty());
    assert(full.0 =~= metadata@.map_values(|e: (Vec<u8>, u32)| (e.0@, e.1)));
    if p > len || len - p < 8 {
        return Some(Err(GgufError::UnexpectedEnd));
    }
    let tc = read_u32_at(bytes, p) as usize;
    let ghost es = mentries(bytes@);
    let mut infos: Vec<(Vec<u8>, Vec<usize>, u32, usize)> = Vec::new();
    let mut q: usize = p + 8;
    let mut j: usize = 0;
    assert(full.1 == p);
    assert(infos@.map_values(|e: (Vec<u8>, Vec<usize>, u32, usize)| (e.0@, e.1@, e.2, e.3)) =~= Seq::<MTensor>::empty());
    assert(es =~= Seq::<MTensor>::empty() + mtensor_loop(bytes@, q as int, j as int, tc as int));
    assert(es == infos@.map_values(|e: (Vec<u8>, Vec<usize>, u32, usize)| (e.0@, e.1@, e.2, e.3)) + mtensor_loop(
        bytes@,
        q as int,
        j as int,
        tc as int,
    ));
    while j < tc
        invariant
            len == bytes@.len(),
            len <= isize::MAX,
            q <= len + 8,
            u32_at(bytes@, 0) == 0x46554747,
            version == u32_at(bytes@, 4),
            mmeta(bytes@).1 + 8 <= len,
            mmeta(bytes@).0 == metadata@.map_values(|e: (Vec<u8>, u32)| (e.0@, e.1)),
            es == mentries(bytes@),
            es == infos@.map_values(|e: (Vec<u8>, Vec<usize>, u32, usize)| (e.0@, e.1@, e.2, e.3)) + mtensor_loop(
                bytes@,
                q as int,
                j as int,
                tc as int,
            ),
        ensures
            es == infos@.map_values(|e: (Vec<u8>, Vec<usize>, u32, usize)| (e.0@, e.1@, e.2, e.3)),
        decreases tc - j,
    {
        let ghost before = infos@.map_values(|e: (Vec<u8>, Vec<usize>, u32, usize)| (e.0@, e.1@, e.2, e.3));
        let (stop, name, shape, dtype, off, next) = mtensor_entry_exec(bytes, q);
        if stop {
            proof {
                assert(mtensor_loop(bytes@, q as int, j as int, tc as int) =~= Seq::<MTensor>::empty());
                assert(before + Seq::<MTensor>::empty() =~= before);
            }
            break;
        }
        proof {
            assert(infos@.push((name, shape, dtype, off)).map_values(
                |e: (Vec<u8>, Vec<usize>, u32, usize)| (e.0@, e.1@, e.2, e.3),
            ) =~= before.push((name@, shape@, dtype, off)));
            assert(before + (seq![(name@, shape@, dtype, off)] + mtensor_loop(bytes@, next as int, j + 1, tc as int))
                =~= before.push((name@, shape@, dtype, off)) + mtensor_loop(bytes@, next as int, j + 1, tc as int));
        }
        infos.push((name, shape, dtype, off));
        q = next;
        j += 1;
    }
    let mut tensors: Vec<GgufTensor> = Vec::new();
    let mut k: usize = 0;
    assert(tensors@.map_values(|t: GgufTensor| tensor_view(t)) =~= mkept(bytes@, es, 0));
    while k < infos.len()
        invariant
            len == bytes@.len(),
            k <= infos@.len(),
            es.len() == infos@.len(),
            u32_at(bytes@, 0) == 0x46554747,
            version == u32_at(bytes@, 4),
            mmeta(bytes@).1 + 8 <= len,
            mmeta(bytes@).0 == metadata@.map_values(|e: (Vec<u8>, u32)| (e.0@, e.1)),
            es == mentries(bytes@),
            es == infos@.map_values(|e: (Vec<u8>, Vec<usize>, u32, usize)| (e.0@, e.1@, e.2, e.3)),
            forall|x: int| 0 <= x < k ==> !#[trigger] mtensor_overflows(len as int, es[x]),
            tensors@.map_values(|t: GgufTensor| tensor_view(t)) == mkept(bytes@, es, k as int),
        decreases infos@.len() - k,
    {
        let ghost e = es[k as int];
        let size = match tensor_size_checked(&infos[k].1, infos[k].2) {
            Some(n) => n,
            None => {
                assert(mtensor_overflows(len as int, es[k as int]));
                return None;
            },
        };
        let off = infos[k].3;
        if off < len && size > usize::MAX - off {
            assert(mtensor_overflows(len as int, es[k as int]));
            return None;
        }
        if off < len && off + size <= len {
            let data = copy_bytes(bytes, off, off + size);
            let t = GgufTensor {
                name: infos[k].0.clone(),
                shape: infos[k].1.clone(),
                dtype: infos[k].2,
                offset: off,
                data,
            };
            proof {
                let old_v = tensors@.map_values(|t: GgufTensor| tensor_view(t));
                assert(tensors@.push(t).map_values(|t: GgufTensor| tensor_view(t)) =~= old_v.push(tensor_view(t)));
            }
            tensors.push(t);
        }
        k += 1;
    }
    Some(Ok(GgufFile { version, metadata, tensors }))
}

/// The key holds one of the two markers.
pub open spec fn holds_marker(key: Seq<char>, a: Seq<char>, b: Seq<char>) -> bool {
    seq_contains_seq(key, a) || seq_contains_seq(key, b)
}

proof fn lemma_last_key_sets_hidden_size(start: MetadataDims, keys: Seq<Seq<char>>, n: int)
    requires
        0 <= n <= keys.len(),
    ensures
        forall|j: int|
            0 <= j < n && holds_marker(#[trigger] keys[j], "hidden_size"@, "llama.hidden_size"@) && spec_extract_num(keys[j]) is Some && (forall|
                j2: int,
            | j < j2 < n && holds_marker(#[trigger] keys[j2], "hidden_size"@, "llama.hidden_size"@) ==> spec_extract_num(keys[j2]) is None)
                ==> dims_after_keys(start, keys, n).hidden_size == spec_extract_num(keys[j]).unwrap(),
        (forall|j: int| 0 <= j < n && holds_marker(#[trigger] keys[j], "hidden_size"@, "llama.hidden_size"@) ==> spec_extract_num(keys[j]) is None)
            ==> dims_after_keys(start, keys, n).hidden_size == start.hidden_size,
    decreases n,
{
    if n > 0 {
        lemma_last_key_sets_hidden_size(start, keys, n - 1);
        let k = keys[n - 1];
        assert forall|j: int|
            0 <= j < n && holds_marker(#[trigger] keys[j], "hidden_size"@, "llama.hidden_size"@) && spec_extract_num(keys[j]) is Some && (forall|
                j2: int,
            | j < j2 < n && holds_marker(#[trigger] keys[j2], "hidden_size"@, "llama.hidden_size"@) ==> spec_extract_num(keys[j2]) is None)
            implies dims_after_keys(start, keys, n).hidden_size == spec_extract_num(keys[j]).unwrap() by {
            if j < n - 1 {
                if holds_marker(k, "hidden_size"@, "llama.hidden_size"@) {
                    assert(spec_extract_num(keys[n - 1]) is None);
                }
            }
        }
    }
}

proof fn lemma_last_key_sets_intermediate_size(start: MetadataDims, keys: Seq<Seq<char>>, n: int)
    requires
        0 <= n <= keys.len(),
    ensures
        forall|j: int|
            0 <= j < n && holds_marker(#[trigger] keys[j], "intermediate_size"@, "llama.intermediate_size"@) && spec_extract_num(keys[j]) is Some && (forall|
                j2: int,
            | j < j2 < n && holds_marker(#[trigger] keys[j2], "intermediate_size"@, "llama.intermediate_size"@) ==> spec_extract_num(keys[j2]) is None)
                ==> dims_after_keys(start, keys, n).intermediate_size == spec_extract_num(keys[j]).unwrap(),
        (forall|j: int| 0 <= j < n && holds_marker(#[trigger] keys[j], "intermediate_size"@, "llama.intermediate_size"@) ==> spec_extract_num(keys[j]) is None)
            ==> dims_after_keys(start, keys, n).intermediate_size == start.intermediate_size,
    decreases n,
{
    if n > 0 {
        lemma_last_key_sets_intermediate_size(start, keys, n - 1);
        let k = keys[n - 1];
        assert forall|j: int|
            0 <= j < n && holds_marker(#[trigger] keys[j], "intermediate_size"@, "llama.intermediate_size"@) && spec_extract_num(keys[j]) is Some && (forall|
                j2: int,
            | j < j2 < n && holds_marker(#[trigger] keys[j2], "intermediate_size"@, "llama.intermediate_size"@) ==> spec_extract_num(keys[j2]) is None)
            implies dims_after_keys(start, keys, n).intermediate_size == spec_extract_num(keys[j]).unwrap() by {
            if j < n - 1 {
                if holds_marker(k, "intermediate_size"@, "llama.intermediate_size"@) {
                    assert(spec_extract_num(keys[n - 1]) is None);
                }
            }
        }
    }
}

proof fn lemma_last_key_sets_num_layers(start: MetadataDims, keys: Seq<Seq<char>>, n: int)
    requires
        0 <= n <= keys.len(),
    ensures
        forall|j: int|
            0 <= j < n && holds_marker(#[trigger] keys[j], "num_hidden_layers"@, "n_layers"@) && spec_extract_num(keys[j]) is Some && (forall|
                j2: int,
            | j < j2 < n && holds_marker(#[trigger] keys[j2], "num_hidden_layers"@, "n_layers"@) ==> spec_extract_num(keys[j2]) is None)
                ==> dims_after_keys(start, keys, n).num_layers == spec_extract_num(keys[j]).unwrap(),
        (forall|j: int| 0 <= j < n && holds_marker(#[trigger] keys[j], "num_hidden_layers"@, "n_layers"@) ==> spec_extract_num(keys[j]) is None)
            ==> dims_after_keys(start, keys, n).num_layers == start.num_layers,
    decreases n,
{
    if n > 0 {
        lemma_last_key_sets_num_layers(start, keys, n - 1);
        let k = keys[n - 1];
        assert forall|j: int|
            0 <= j < n && holds_marker(#[trigger] keys[j], "num_hidden_layers"@, "n_layers"@) && spec_extract_num(keys[j]) is Some && (forall|
                j2: int,
            | j < j2 < n && holds_marker(#[trigger] keys[j2], "num_hidden_layers"@, "n_layers"@) ==> spec_extract_num(keys[j2]) is None)
            implies dims_after_keys(start, keys, n).num_layers == spec_extract_num(keys[j]).unwrap() by {
            if j < n - 1 {
                if holds_marker(k, "num_hidden_layers"@, "n_layers"@) {
                    assert(spec_extract_num(keys[n - 1]) is None);
                }
            }
        }
    }
}

proof fn lemma_last_key_sets_num_heads(start: MetadataDims, keys: Seq<Seq<char>>, n: int)
    requires
        0 <= n <= keys.len(),
    ensures
        forall|j: int|
            0 <= j < n && holds_marker(#[trigger] keys[j], "num_attention_heads"@, "n_heads"@) && spec_extract_num(keys[j]) is Some && (forall|
                j2: int,
            | j < j2 < n && holds_marker(#[trigger] keys[j2], "num_attention_heads"@, "n_heads"@) ==> spec_extract_num(keys[j2]) is None)
                ==> dims_after_keys(start, keys, n).num_heads == spec_extract_num(keys[j]).unwrap(),
        (forall|j: int| 0 <= j < n && holds_marker(#[trigger] keys[j], "num_attention_heads"@, "n_heads"@) ==> spec_extract_num(keys[j]) is None)
            ==> dims_after_keys(start, keys, n).num_heads == start.num_heads,
    decreases n,
{
    if n > 0 {
        lemma_last_key_sets_num_heads(start, keys, n - 1);
        let k = keys[n - 1];
        assert forall|j: int|
            0 <= j < n && holds_marker(#[trigger] keys[j], "num_attention_heads"@, "n_heads"@) && spec_extract_num(keys[j]) is Some && (forall|
                j2: int,
            | j < j2 < n && holds_marker(#[trigger] keys[j2], "num_attention_heads"@, "n_heads"@) ==> spec_extract_num(keys[j2]) is None)
            implies dims_after_keys(start, keys, n).num_heads == spec_extract_num(keys[j]).unwrap() by {
            if j < n - 1 {
                if holds_marker(k, "num_attention_heads"@, "n_heads"@) {
                    assert(spec_extract_num(keys[n - 1]) is None);
                }
            }
        }
    }
}

proof fn lemma_last_key_sets_num_kv_heads(start: MetadataDims, keys: Seq<Seq<char>>, n: int)
    requires
        0 <= n <= keys.len(),
    ensures
        forall|j: int|
            0 <= j < n && holds_marker(#[trigger] keys[j], "num_key_value_heads"@, "n_kv_heads"@) && spec_extract_num(keys[j]) is Some && (forall|
                j2: int,
            | j < j2 < n && holds_marker(#[trigger] keys[j2], "num_key_value_heads"@, "n_kv_heads"@) ==> spec_extract_num(keys[j2]) is None)
                ==> dims_after_keys(start, keys, n).num_kv_heads == spec_extract_num(keys[j]).unwrap(),
        (forall|j: int| 0 <= j < n && holds_marker(#[trigger] keys[j], "num_key_value_heads"@, "n_kv_heads"@) ==> spec_extract_num(keys[j]) is None)
            ==> dims_after_keys(start, keys, n).num_kv_heads == start.num_kv_heads,
    decreases n,
{
    if n > 0 {
        lemma_last_key_sets_num_kv_heads(start, keys, n - 1);
        let k = keys[n - 1];
        assert forall|j: int|
            0 <= j < n && holds_marker(#[trigger] keys[j], "num_key_value_heads"@, "n_kv_heads"@) && spec_extract_num(keys[j]) is Some && (forall|
                j2: int,
            | j < j2 < n && holds_marker(#[trigger] keys[j2], "num_key_value_heads"@, "n_kv_heads"@) ==> spec_extract_num(keys[j2]) is None)
            implies dims_after_keys(start, keys, n).num_kv_heads == spec_extract_num(keys[j]).unwrap() by {
            if j < n - 1 {
                if holds_marker(k, "num_key_value_heads"@, "n_kv_heads"@) {
                    assert(spec_extract_num(keys[n - 1]) is None);
                }
            }
        }
    }
}

proof fn lemma_last_key_sets_max_seq_len(start: MetadataDims, keys: Seq<Seq<char>>, n: int)
    requires
        0 <= n <= keys.len(),
    ensures
        forall|j: int|
            0 <= j < n && holds_marker(#[trigger] keys[j], "max_position"@, "n_ctx"@) && spec_extract_num(keys[j]) is Some && (forall|
                j2: int,
            | j < j2 < n && holds_marker(#[trigger] keys[j2], "max_position"@, "n_ctx"@) ==> spec_extract_num(keys[j2]) is None)
                ==> dims_after_keys(start, keys, n).max_seq_len == spec_extract_num(keys[j]).unwrap(),
        (forall|j: int| 0 <= j < n && holds_marker(#[trigger] keys[j], "max_position"@, "n_ctx"@) ==> spec_extract_num(keys[j]) is None)
            ==> dims_after_keys(start, keys, n).max_seq_len == start.max_seq_len,
    decreases n,
{
    if n > 0 {
        lemma_last_key_sets_max_seq_len(start, keys, n - 1);
        let k = keys[n - 1];
        assert forall|j: int|
            0 <= j < n && holds_marker(#[trigger] keys[j], "max_position"@, "n_ctx"@) && spec_extract_num(keys[j]) is Some && (forall|
                j2: int,
            | j < j2 < n && holds_marker(#[trigger] keys[j2], "max_position"@, "n_ctx"@) ==> spec_extract_num(keys[j2]) is None)
            implies dims_after_keys(start, keys, n).max_seq_len == spec_extract_num(keys[j]).unwrap() by {
            if j < n - 1 {
                if holds_marker(k, "max_position"@, "n_ctx"@) {
                    assert(spec_extract_num(keys[n - 1]) is None);
                }
            }
        }
    }
}


/// `dims_from_keys` sets the hidden size to the number in the last key that holds `hidden_size` or `llama.hidden_size`
/// and a number; with no such key it keeps the starting value.
pub proof fn lemma_dims_hidden_size(start: MetadataDims, ks: Seq<Seq<char>>)
    ensures
        forall|j: int|
            0 <= j < ks.len() && holds_marker(#[trigger] ks[j], "hidden_size"@, "llama.hidden_size"@) && spec_extract_num(ks[j]) is Some && (forall|
                j2: int,
            | j < j2 < ks.len() && holds_marker(#[trigger] ks[j2], "hidden_size"@, "llama.hidden_size"@) ==> spec_extract_num(ks[j2]) is None)
                ==> with_head_dim(dims_after_keys(start, ks, ks.len() as int)).hidden_size == spec_extract_num(ks[j]).unwrap(),
        (forall|j: int| 0 <= j < ks.len() && holds_marker(#[trigger] ks[j], "hidden_size"@, "llama.hidden_size"@) ==> spec_extract_num(ks[j]) is None)
            ==> with_head_dim(dims_after_keys(start, ks, ks.len() as int)).hidden_size == start.hidden_size,
{
    lemma_last_key_sets_hidden_size(start, ks, ks.len() as int);
    let d = dims_after_keys(start, ks, ks.len() as int);
    assert(with_head_dim(d).hidden_size == d.hidden_size);
}

/// `dims_from_keys` sets the intermediate size to the number in the last key that holds `intermediate_size` or `llama.intermediate_size`
/// and a number; with no such key it keeps the starting value.
pub proof fn lemma_dims_intermediate_size(start: MetadataDims, ks: Seq<Seq<char>>)
    ensures
        forall|j: int|
            0 <= j < ks.len() && holds_marker(#[trigger] ks[j], "intermediate_size"@, "llama.intermediate_size"@) && spec_extract_num(ks[j]) is Some && (forall|
                j2: int,
            | j < j2 < ks.len() && holds_marker(#[trigger] ks[j2], "intermediate_size"@, "llama.intermediate_size"@) ==> spec_extract_num(ks[j2]) is None)
                ==> with_head_dim(dims_after_keys(start, ks, ks.len() as int)).intermediate_size == spec_extract_num(ks[j]).unwrap(),
        (forall|j: int| 0 <= j < ks.len() && holds_marker(#[trigger] ks[j], "intermediate_size"@, "llama.intermediate_size"@) ==> spec_extract_num(ks[j]) is None)
            ==> with_head_dim(dims_after_keys(start, ks, ks.len() as int)).intermediate_size == start.intermediate_size,
{
    lemma_last_key_sets_intermediate_size(start, ks, ks.len() as int);
    let d = dims_after_keys(start, ks, ks.len() as int);
    assert(with_head_dim(d).intermediate_size == d.intermediate_size);
}

/// `dims_from_keys` sets the number of layers to the number in the last key that holds `num_hidden_layers` or `n_layers`
/// and a number; with no such key it keeps the starting value.
pub proof fn lemma_dims_num_layers(start: MetadataDims, ks: Seq<Seq<char>>)
    ensures
        forall|j: int|
            0 <= j < ks.len() && holds_marker(#[trigger] ks[j], "num_hidden_layers"@, "n_layers"@) && spec_extract_num(ks[j]) is Some && (forall|
                j2: int,
            | j < j2 < ks.len() && holds_marker(#[trigger] ks[j2], "num_hidden_layers"@, "n_layers"@) ==> spec_extract_num(ks[j2]) is None)
                ==> with_head_dim(dims_after_keys(start, ks, ks.len() as int)).num_layers == spec_extract_num(ks[j]).unwrap(),
        (forall|j: int| 0 <= j < ks.len() && holds_marker(#[trigger] ks[j], "num_hidden_layers"@, "n_layers"@) ==> spec_extract_num(ks[j]) is None)
            ==> with_head_dim(dims_after_keys(start, ks, ks.len() as int)).num_layers == start.num_layers,
{
    lemma_last_key_sets_num_layers(start, ks, ks.len() as int);
    let d = dims_after_keys(start, ks, ks.len() as int);
    assert(with_head_dim(d).num_layers == d.num_layers);
}

/// `dims_from_keys` sets the number of attention heads to the number in the last key that holds `num_attention_heads` or `n_heads`
/// and a number; with no such key it keeps the starting value.
pub proof fn lemma_dims_num_heads(start: MetadataDims, ks: Seq<Seq<char>>)
    ensures
        forall|j: int|
            0 <= j < ks.len() && holds_marker(#[trigger] ks[j], "num_attention_heads"@, "n_heads"@) && spec_extract_num(ks[j]) is Some && (forall|
                j2: int,
            | j < j2 < ks.len() && holds_marker(#[trigger] ks[j2], "num_attention_heads"@, "n_heads"@) ==> spec_extract_num(ks[j2]) is None)
                ==> with_head_dim(dims_after_keys(start, ks, ks.len() as int)).num_heads == spec_extract_num(ks[j]).unwrap(),
        (forall|j: int| 0 <= j < ks.len() && holds_marker(#[trigger] ks[j], "num_attention_heads"@, "n_heads"@) ==> spec_extract_num(ks[j]) is None)
            ==> with_head_dim(dims_after_keys(start, ks, ks.len() as int)).num_heads == start.num_heads,
{
    lemma_last_key_sets_num_heads(start, ks, ks.len() as int);
    let d = dims_after_keys(start, ks, ks.len() as int);
    assert(with_head_dim(d).num_heads == d.num_heads);
}

/// `dims_from_keys` sets the number of key/value heads to the number in the last key that holds `num_key_value_heads` or `n_kv_heads`
/// and a number; with no such key it keeps the starting value.
pub proof fn lemma_dims_num_kv_heads(start: MetadataDims, ks: Seq<Seq<char>>)
    ensures
        forall|j: int|
            0 <= j < ks.len() && holds_marker(#[trigger] ks[j], "num_key_value_heads"@, "n_kv_heads"@) && spec_extract_num(ks[j]) is Some && (forall|
                j2: int,
            | j < j2 < ks.len() && holds_marker(#[trigger] ks[j2], "num_key_value_heads"@, "n_kv_heads"@) ==> spec_extract_num(ks[j2]) is None)
                ==> with_head_dim(dims_after_keys(start, ks, ks.len() as int)).num_kv_heads == spec_extract_num(ks[j]).unwrap(),
        (forall|j: int| 0 <= j < ks.len() && holds_marker(#[trigger] ks[j], "num_key_value_heads"@, "n_kv_heads"@) ==> spec_extract_num(ks[j]) is None)
            ==> with_head_dim(dims_after_keys(start, ks, ks.len() as int)).num_kv_heads == start.num_kv_heads,
{
    lemma_last_key_sets_num_kv_heads(start, ks, ks.len() as int);
    let d = dims_after_keys(start, ks, ks.len() as int);
    assert(with_head_dim(d).num_kv_heads == d.num_kv_heads);
}

/// `dims_from_keys` sets the longest sequence to the number in the last key that holds `max_position` or `n_ctx`
/// and a number; with no such key it keeps the starting value.
pub proof fn lemma_dims_max_seq_len(start: MetadataDims, ks: Seq<Seq<char>>)
    ensures
        forall|j: int|
            0 <= j < ks.len() && holds_marker(#[trigger] ks[j], "max_position"@, "n_ctx"@) && spec_extract_num(ks[j]) is Some && (forall|
                j2: int,
            | j < j2 < ks.len() && holds_marker(#[trigger] ks[j2], "max_position"@, "n_ctx"@) ==> spec_extract_num(ks[j2]) is None)
                ==> with_head_dim(dims_after_keys(start, ks, ks.len() as int)).max_seq_len == spec_extract_num(ks[j]).unwrap(),
        (forall|j: int| 0 <= j < ks.len() && holds_marker(#[trigger] ks[j], "max_position"@, "n_ctx"@) ==> spec_extract_num(ks[j]) is None)
            ==> with_head_dim(dims_after_keys(start, ks, ks.len() as int)).max_seq_len == start.max_seq_len,
{
    lemma_last_key_sets_max_seq_len(start, ks, ks.len() as int);
    let d = dims_after_keys(start, ks, ks.len() as int);
    assert(with_head_dim(d).max_seq_len == d.max_seq_len);
}

/// `dims_from_keys` keeps a head size other than 0, and makes a head size of 0 the hidden size
/// it read over the number of heads it read (at least 1).
pub proof fn lemma_dims_head_dim(start: MetadataDims, ks: Seq<Seq<char>>)
    ensures
        ({
            let r = with_head_dim(dims_after_keys(start, ks, ks.len() as int));
            &&& start.head_dim != 0 ==> r.head_dim == start.head_dim
            &&& start.head_dim == 0 ==> r.head_dim == r.hidden_size / (if r.num_heads > 1 { r.num_heads } else { 1 })
        }),
{
    lemma_head_dim_kept(start, ks, ks.len() as int);
}

proof fn lemma_head_dim_kept(start: MetadataDims, ks: Seq<Seq<char>>, n: int)
    ensures
        dims_after_keys(start, ks, n).head_dim == start.head_dim,
    decreases n,
{
    if n > 0 {
        lemma_head_dim_kept(start, ks, n - 1);
    }
}

} // verus!
