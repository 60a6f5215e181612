use vstd::prelude::*;
use crate::text::{chars_of, contains_chars, matches_at, seq_contains_seq};

verus! {

/// A JSON value as the library reads it: numbers are kept as the unsigned integer they are,
/// when they are one; an object keeps its entries in the order the parser gives them.
#[derive(Debug)]
pub enum JsonValue {
    Null,
    Bool(bool),
    /// The number as a `u64` when it is a non-negative integer that fits, none otherwise.
    Number(Option<u64>),
    Str(String),
    Array(Vec<JsonValue>),
    Object(Vec<(String, JsonValue)>),
}

#[verifier::external_type_specification]
#[verifier::external_body]
pub struct ExSerdeJsonValue(serde_json::Value);

/// What `serde_json::from_str::<serde_json::Value>` reads from a text, converted to a
/// `JsonValue`; none when the text is not JSON. A function of the text alone.
pub uninterp spec fn spec_parse_json(text: Seq<char>) -> Option<JsonValue>;

/// Converts a `serde_json::Value` to a `JsonValue` variant by variant (numbers through
/// `Number::as_u64`, objects in their map's order).
#[verifier::external_body]
fn json_value_of(v: &serde_json::Value) -> JsonValue {
    match v {
        serde_json::Value::Null => JsonValue::Null,
        serde_json::Value::Bool(b) => JsonValue::Bool(*b),
        serde_json::Value::Number(n) => JsonValue::Number(n.as_u64()),
        serde_json::Value::String(s) => JsonValue::Str(s.clone()),
        serde_json::Value::Array(a) => JsonValue::Array(a.iter().map(json_value_of).collect()),
        serde_json::Value::Object(m) => JsonValue::Object(m.iter().map(|(k, x)| (k.clone(), json_value_of(x))).collect()),
    }
}

/// `serde_json::from_str::<serde_json::Value>`: the parsed value, whose conversion is named
/// `spec_parse_json`, or the parser's error message. The message's wording is not stated.
#[verifier::external_body]
fn parse_json(text: &str) -> (r: Result<JsonValue, String>)
    ensures
        (r is Ok) == (spec_parse_json(text@) is Some),
        r matches Ok(v) ==> spec_parse_json(text@) == Some(v),
{
    match serde_json::from_str::<serde_json::Value>(text) {
        Ok(v) => Ok(json_value_of(&v)),
        Err(e) => Err(format!("Failed to parse JSON header: {}", e)),
    }
}

/// `String::from_utf8`: succeeds exactly when the bytes are valid UTF-8, and then gives the
/// text they encode; the error message otherwise (its wording is not stated).
#[verifier::external_body]
fn header_text(bytes: Vec<u8>) -> (r: Result<String, String>)
    ensures
        (r is Ok) == vstd::utf8::valid_utf8(bytes@),
        r matches Ok(s) ==> s@ == vstd::utf8::decode_utf8(bytes@) && vstd::utf8::encode_utf8(s@) == bytes@,
{
    match String::from_utf8(bytes) {
        Ok(s) => Ok(s),
        Err(e) => Err(format!("Invalid UTF-8 in header: {}", e)),
    }
}

/// The size of a safetensors header: the first eight bytes of the file, little-endian.
pub fn safetensors_header_size(prefix: &[u8; 8]) -> (n: u64)
    ensures
        n == vstd::bytes::spec_u64_from_le_bytes(prefix@),
{
    vstd::bytes::u64_from_le_bytes(prefix.as_slice())
}

/// Where a LoRA weight tensor lies in its safetensors file and how to read it.
#[derive(Debug, Clone)]
pub struct LoraTensorPlan {
    /// The tensor's name with every `.weight` removed.
    pub module_name: String,
    /// The byte offset of its data in the file.
    pub offset: usize,
    /// The bytes of its data.
    pub byte_len: usize,
    /// The `f32` values read from the data.
    pub n_elements: usize,
    /// The first dimension of its shape.
    pub rank: usize,
    /// The second dimension of its shape.
    pub in_dim: usize,
}

/// A plan as values: (module name, offset, bytes, elements, rank, input dimension).
pub type PlanView = (Seq<char>, nat, nat, nat, nat, nat);

impl View for LoraTensorPlan {
    type V = PlanView;

    open spec fn view(&self) -> PlanView {
        (
            self.module_name@,
            self.offset as nat,
            self.byte_len as nat,
            self.n_elements as nat,
            self.rank as nat,
            self.in_dim as nat,
        )
    }
}

pub open spec fn weight_suffix() -> Seq<char> {
    seq!['.', 'w', 'e', 'i', 'g', 'h', 't']
}

pub open spec fn lora_marker() -> Seq<char> {
    seq!['l', 'o', 'r', 'a', '_']
}

pub open spec fn key_shape() -> Seq<char> {
    seq!['s', 'h', 'a', 'p', 'e']
}

pub open spec fn key_offsets() -> Seq<char> {
    seq!['d', 'a', 't', 'a', '_', 'o', 'f', 'f', 's', 'e', 't', 's']
}

/// `s` ends with `p`.
pub open spec fn ends_with(s: Seq<char>, p: Seq<char>) -> bool {
    s.len() >= p.len() && s.subrange(s.len() - p.len(), s.len() as int) == p
}

/// `s` with every occurrence of `p` removed, scanning from the left (as `str::replace` with
/// an empty replacement does).
pub open spec fn remove_all(s: Seq<char>, p: Seq<char>) -> Seq<char>
    decreases s.len(),
{
    if p.len() == 0 || s.len() < p.len() {
        s
    } else if s.take(p.len() as int) == p {
        remove_all(s.skip(p.len() as int), p)
    } else {
        seq![s[0]] + remove_all(s.skip(1), p)
    }
}

/// The value of the first entry of `fs` under `key`.
pub open spec fn obj_get(fs: Seq<(String, JsonValue)>, key: Seq<char>) -> Option<JsonValue>
    decreases fs.len(),
{
    if fs.len() == 0 {
        None
    } else if fs[0].0@ == key {
        Some(fs[0].1)
    } else {
        obj_get(fs.drop_first(), key)
    }
}

/// A value as a `u64`, when it is a number that is one.
pub open spec fn as_u64(v: JsonValue) -> Option<u64> {
    match v {
        JsonValue::Number(n) => n,
        _ => None,
    }
}

/// The `u64` values among `vs`, in order, as `usize`.
pub open spec fn u64s_of(vs: Seq<JsonValue>) -> Seq<usize>
    decreases vs.len(),
{
    if vs.len() == 0 {
        Seq::empty()
    } else {
        let rest = u64s_of(vs.drop_last());
        match as_u64(vs.last()) {
            Some(n) => rest.push(n as usize),
            None => rest,
        }
    }
}

/// A tensor's shape: the `u64` entries of its `shape` array; empty without one.
pub open spec fn shape_of(info: Seq<(String, JsonValue)>) -> Seq<usize> {
    match obj_get(info, key_shape()) {
        Some(JsonValue::Array(a)) => u64s_of(a@),
        _ => Seq::empty(),
    }
}

/// Entry `i` of an array as a `usize`, 0 when missing or not a `u64`.
pub open spec fn u64_at(a: Seq<JsonValue>, i: int) -> usize {
    if 0 <= i < a.len() {
        match as_u64(a[i]) {
            Some(n) => n as usize,
            None => 0,
        }
    } else {
        0
    }
}

/// A tensor's data offsets: the first two entries of its `data_offsets` array; (0, 0)
/// without one.
pub open spec fn offsets_of(info: Seq<(String, JsonValue)>) -> (usize, usize) {
    match obj_get(info, key_offsets()) {
        Some(JsonValue::Array(a)) => (u64_at(a@, 0), u64_at(a@, 1)),
        _ => (0, 0),
    }
}

/// How reading the entries of a header turns out.
pub enum PlanOutcome {
    /// The plans of the LoRA weight tensors, in entry order.
    Plans(Seq<PlanView>),
    /// A LoRA entry whose description is not an object.
    Invalid,
    /// A LoRA entry whose end offset lies before its start, or a 2-D one whose data offset
    /// does not fit in a `usize`.
    Overflows,
}

/// The entry's name marks a LoRA weight.
pub open spec fn is_lora_entry(name: Seq<char>) -> bool {
    ends_with(name, weight_suffix()) || seq_contains_seq(name, lora_marker())
}

/// The outcome after reading one more entry `(name, info)` of the header.
pub open spec fn plan_step(ps: Seq<PlanView>, name: Seq<char>, info: JsonValue, hs: usize) -> PlanOutcome {
    if !is_lora_entry(name) {
        PlanOutcome::Plans(ps)
    } else {
        match info {
            JsonValue::Object(f) => {
                let (a, b) = offsets_of(f@);
                let shape = shape_of(f@);
                if b < a {
                    PlanOutcome::Overflows
                } else if shape.len() != 2 {
                    PlanOutcome::Plans(ps)
                } else if a + hs + 8 > usize::MAX {
                    PlanOutcome::Overflows
                } else {
                    PlanOutcome::Plans(
                        ps.push(
                            (
                                remove_all(name, weight_suffix()),
                                (a + hs + 8) as nat,
                                (b - a) as nat,
                                ((b - a) / 4) as nat,
                                shape[0] as nat,
                                shape[1] as nat,
                            ),
                        ),
                    )
                }
            },
            _ => PlanOutcome::Invalid,
        }
    }
}

/// The outcome after reading the first `n` entries of `fs`.
pub open spec fn plans_upto(fs: Seq<(String, JsonValue)>, hs: usize, n: int) -> PlanOutcome
    decreases n,
{
    if n <= 0 {
        PlanOutcome::Plans(Seq::empty())
    } else {
        match plans_upto(fs, hs, n - 1) {
            PlanOutcome::Plans(ps) => plan_step(ps, fs[n - 1].0@, fs[n - 1].1, hs),
            other => other,
        }
    }
}

/// How reading a header with `hs` header bytes turns out: its entries in order when it is
/// an object; no plan otherwise.
pub open spec fn lora_outcome(header: JsonValue, hs: usize) -> PlanOutcome {
    match header {
        JsonValue::Object(fs) => plans_upto(fs@, hs, fs@.len() as int),
        _ => PlanOutcome::Plans(Seq::empty()),
    }
}

fn chars_eq(a: &Vec<char>, b: &Vec<char>) -> (r: bool)
    ensures
        r == (a@ == b@),
{
    if a.len() != b.len() {
        return false;
    }
    let r = matches_at(a, b, 0);
    proof {
        assert(a@.subrange(0, b@.len() as int) =~= a@);
    }
    r
}

fn get_field<'a>(fs: &'a Vec<(String, JsonValue)>, key: &Vec<char>) -> (r: Option<&'a JsonValue>)
    ensures
        match r {
            Some(v) => obj_get(fs@, key@) == Some(*v),
            None => obj_get(fs@, key@) is None,
        },
{
    let mut i: usize = 0;
    assert(fs@.skip(0) =~= fs@);
    while i < fs.len()
        invariant
            i <= fs@.len(),
            obj_get(fs@, key@) == obj_get(fs@.skip(i as int), key@),
        decreases fs@.len() - i,
    {
        let k = chars_of(fs[i].0.as_str());
        proof {
            assert(fs@.skip(i as int)[0] == fs@[i as int]);
            assert(fs@.skip(i as int).drop_first() =~= fs@.skip(i + 1));
        }
        if chars_eq(&k, key) {
            return Some(&fs[i].1);
        }
        i += 1;
    }
    assert(fs@.skip(i as int).len() == 0);
    None
}

fn get_u64(v: &JsonValue) -> (r: Option<u64>)
    ensures
        r == as_u64(*v),
{
    match v {
        JsonValue::Number(n) => *n,
        _ => None,
    }
}

fn shape_field(info: &Vec<(String, JsonValue)>) -> (r: Vec<usize>)
    ensures
        r@ == shape_of(info@),
{
    let key: Vec<char> = vec!['s', 'h', 'a', 'p', 'e'];
    assert(key@ == key_shape());
    let mut out: Vec<usize> = Vec::new();
    match get_field(info, &key) {
        Some(JsonValue::Array(a)) => {
            let mut i: usize = 0;
            while i < a.len()
                invariant
                    i <= a@.len(),
                    out@ == u64s_of(a@.take(i as int)),
                decreases a@.len() - i,
            {
                proof {
                    assert(a@.take(i + 1).drop_last() =~= a@.take(i as int));
                    assert(a@.take(i + 1).last() == a@[i as int]);
                }
                match get_u64(&a[i]) {
                    Some(n) => out.push(n as usize),
                    None => {},
                }
                i += 1;
            }
            assert(a@.take(a@.len() as int) =~= a@);
        },
        _ => {},
    }
    out
}

fn u64_entry(a: &Vec<JsonValue>, i: usize) -> (r: usize)
    ensures
        r == u64_at(a@, i as int),
{
    if i < a.len() {
        match get_u64(&a[i]) {
            Some(n) => n as usize,
            None => 0,
        }
    } else {
        0
    }
}

fn offsets_field(info: &Vec<(String, JsonValue)>) -> (r: (usize, usize))
    ensures
        r == offsets_of(info@),
{
    let key: Vec<char> = vec!['d', 'a', 't', 'a', '_', 'o', 'f', 'f', 's', 'e', 't', 's'];
    assert(key@ == key_offsets());
    match get_field(info, &key) {
        Some(JsonValue::Array(a)) => (u64_entry(a, 0), u64_entry(a, 1)),
        _ => (0, 0),
    }
}

fn remove_all_chars(s: &Vec<char>, p: &Vec<char>) -> (r: Vec<char>)
    requires
        p@.len() > 0,
    ensures
        r@ == remove_all(s@, p@),
{
    let n = s.len();
    let pl = p.len();
    let mut out: Vec<char> = Vec::new();
    let mut i: usize = 0;
    assert(s@.skip(0) =~= s@);
    assert(out@ + remove_all(s@, p@) =~= remove_all(s@, p@));
    while i < n
        invariant
            n == s@.len(),
            pl == p@.len(),
            pl > 0,
            i <= n,
            remove_all(s@, p@) == out@ + remove_all(s@.skip(i as int), p@),
        decreases n - i,
    {
        let ghost t = s@.skip(i as int);
        if pl <= n - i && matches_at(s, p, i) {
            proof {
                assert(t.take(pl as int) =~= s@.subrange(i as int, i + pl));
                assert(t.skip(pl as int) =~= s@.skip(i + pl));
            }
            i += pl;
        } else {
            proof {
                if pl <= n - i {
                    assert(t.take(pl as int) =~= s@.subrange(i as int, i + pl));
                }
                assert(t.skip(1) =~= s@.skip(i + 1));
                assert(out@.push(s@[i as int]) + remove_all(s@.skip(i + 1), p@) =~= out@ + (seq![t[0]] + remove_all(
                    t.skip(1),
                    p@,
                )));
            }
            out.push(s[i]);
            i += 1;
        }
    }
    assert(s@.skip(n as int).len() == 0);
    assert(out@ + remove_all(s@.skip(n as int), p@) =~= out@);
    out
}

fn ends_with_chars(s: &Vec<char>, p: &Vec<char>) -> (r: bool)
    ensures
        r == ends_with(s@, p@),
{
    if s.len() < p.len() {
        false
    } else {
        matches_at(s, p, s.len() - p.len())
    }
}

/// How reading a header turns out, as the library runs it.
enum PlanRun {
    Plans(Vec<LoraTensorPlan>),
    Invalid,
    Overflows,
}

fn run_plans(header: &JsonValue, hs: usize) -> (r: PlanRun)
    ensures
        match lora_outcome(*header, hs) {
            PlanOutcome::Plans(ps) => r matches PlanRun::Plans(v) && v@.map_values(|p: LoraTensorPlan| p@) == ps,
            PlanOutcome::Invalid => r is Invalid,
            PlanOutcome::Overflows => r is Overflows,
        },
{
    let fs = match header {
        JsonValue::Object(fs) => fs,
        _ => {
            let v: Vec<LoraTensorPlan> = Vec::new();
            assert(v@.map_values(|p: LoraTensorPlan| p@) =~= Seq::<PlanView>::empty());
            return PlanRun::Plans(v);
        },
    };
    let suffix: Vec<char> = vec!['.', 'w', 'e', 'i', 'g', 'h', 't'];
    let marker: Vec<char> = vec!['l', 'o', 'r', 'a', '_'];
    assert(suffix@ == weight_suffix());
    assert(marker@ == lora_marker());
    let mut plans: Vec<LoraTensorPlan> = Vec::new();
    let mut i: usize = 0;
    assert(plans@.map_values(|p: LoraTensorPlan| p@) =~= Seq::<PlanView>::empty());
    assert(lora_outcome(*header, hs) == plans_upto(fs@, hs, fs@.len() as int));
    while i < fs.len()
        invariant
            i <= fs@.len(),
            lora_outcome(*header, hs) == plans_upto(fs@, hs, fs@.len() as int),
            suffix@ == weight_suffix(),
            marker@ == lora_marker(),
            plans_upto(fs@, hs, i as int) == PlanOutcome::Plans(plans@.map_values(|p: LoraTensorPlan| p@)),
        decreases fs@.len() - i,
    {
        let ghost ps = plans@.map_values(|p: LoraTensorPlan| p@);
        let name = chars_of(fs[i].0.as_str());
        let lora = ends_with_chars(&name, &suffix) || contains_chars(&name, &marker);
        assert(lora == is_lora_entry(fs@[i as int].0@));
        assert(plans_upto(fs@, hs, i + 1) == plan_step(ps, fs@[i as int].0@, fs@[i as int].1, hs));
        if lora {
            match &fs[i].1 {
                JsonValue::Object(f) => {
                    let (a, b) = offsets_field(f);
                    let shape = shape_field(f);
                    if b < a {
                        proof {
                            assert(fs@[i as int].1 == JsonValue::Object(*f));
                            assert(plan_step(ps, fs@[i as int].0@, fs@[i as int].1, hs) is Overflows);
                            lemma_plans_stop(fs@, hs, i as int + 1, fs@.len() as int);
                        }
                        return PlanRun::Overflows;
                    }
                    if shape.len() == 2 {
                        if hs > usize::MAX - 8 || a > usize::MAX - 8 - hs {
                            proof {
                                lemma_plans_stop(fs@, hs, i as int + 1, fs@.len() as int);
                            }
                            return PlanRun::Overflows;
                        }
                        let module = remove_all_chars(&name, &suffix);
                        let plan = LoraTensorPlan {
                            module_name: crate::text::string_from_chars(module.as_slice()),
                            offset: a + hs + 8,
                            byte_len: b - a,
                            n_elements: (b - a) / 4,
                            rank: shape[0],
                            in_dim: shape[1],
                        };
                        plans.push(plan);
                        proof {
                            assert(plans@.map_values(|p: LoraTensorPlan| p@) =~= ps.push(plan@));
                        }
                    }
                },
                _ => {
                    proof {
                        lemma_plans_stop(fs@, hs, i as int + 1, fs@.len() as int);
                    }
                    return PlanRun::Invalid;
                },
            }
        }
        i += 1;
    }
    PlanRun::Plans(plans)
}

/// Once the outcome after `n` entries is not a list of plans, it stays so.
proof fn lemma_plans_stop(fs: Seq<(String, JsonValue)>, hs: usize, n: int, m: int)
    requires
        n <= m,
        !(plans_upto(fs, hs, n) is Plans),
    ensures
        plans_upto(fs, hs, m) == plans_upto(fs, hs, n),
    decreases m - n,
{
    if n < m {
        lemma_plans_stop(fs, hs, n, m - 1);
    }
}

/// Reading a header whose LoRA entries this would make overflow (see `PlanOutcome`).
pub fn lora_plans_overflow(header: &JsonValue, header_size: usize) -> (r: bool)
    ensures
        r == (lora_outcome(*header, header_size) is Overflows),
{
    match run_plans(header, header_size) {
        PlanRun::Overflows => true,
        _ => false,
    }
}

/// The LoRA weight tensors a safetensors header of `header_size` bytes describes, in entry
/// order: every entry whose name ends with `.weight` or contains `lora_` and has a 2-D shape,
/// with its data offset past the size field and header, its byte length, the `f32` values it
/// holds, its shape and its name with `.weight` removed. Fails on a LoRA entry whose
/// description is not an object.
pub fn lora_tensor_plans(header: &JsonValue, header_size: usize) -> (r: Result<Vec<LoraTensorPlan>, String>)
    requires
        !(lora_outcome(*header, header_size) is Overflows),
    ensures
        match lora_outcome(*header, header_size) {
            PlanOutcome::Plans(ps) => r matches Ok(v) && v@.map_values(|p: LoraTensorPlan| p@) == ps,
            PlanOutcome::Invalid => r matches Err(e) && e@ == "Invalid tensor info"@,
            PlanOutcome::Overflows => false,
        },
{
    match run_plans(header, header_size) {
        PlanRun::Plans(v) => Ok(v),
        _ => Err("Invalid tensor info".to_string()),
    }
}

/// Reads the header bytes of a safetensors file (`header_size` of them) into the plans of
/// its LoRA weight tensors: an error when the bytes are not UTF-8 or not JSON, otherwise what
/// `lora_tensor_plans` gives; none when reading it would overflow.
pub fn read_lora_header(bytes: Vec<u8>, header_size: usize) -> (r: Option<Result<Vec<LoraTensorPlan>, String>>)
    ensures
        !vstd::utf8::valid_utf8(bytes@) ==> r matches Some(Err(_)),
        vstd::utf8::valid_utf8(bytes@) && spec_parse_json(vstd::utf8::decode_utf8(bytes@)) is None ==> r matches Some(
            Err(_),
        ),
        vstd::utf8::valid_utf8(bytes@) ==> (spec_parse_json(vstd::utf8::decode_utf8(bytes@)) matches Some(h) ==> match lora_outcome(
            h,
            header_size,
        ) {
            PlanOutcome::Plans(ps) => r matches Some(Ok(v)) && v@.map_values(|p: LoraTensorPlan| p@) == ps,
            PlanOutcome::Invalid => r matches Some(Err(e)) && e@ == "Invalid tensor info"@,
            PlanOutcome::Overflows => r is None,
        }),
{
    let text = match header_text(bytes) {
        Ok(t) => t,
        Err(e) => return Some(Err(e)),
    };
    let header = match parse_json(text.as_str()) {
        Ok(h) => h,
        Err(e) => return Some(Err(e)),
    };
    if lora_plans_overflow(&header, header_size) {
        return None;
    }
    Some(lora_tensor_plans(&header, header_size))
}

} // verus!
