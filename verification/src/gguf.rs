//! What the engine reads of a model file: key-value metadata and tensor descriptors.

use vstd::prelude::*;
use vstd::string::StringSliceAdditionalSpecFns;
use vstd::utf8::{encode_utf8, is_ascii_chars, is_ascii_chars_encode_utf8};

use crate::parse::{
    ascii_bytes, dot_from, find_dot, law_number_read_back, lemma_dec_value, parse_size, parsed_size,
};
use crate::slices::str_eq;
use crate::text::{dec, law_encode_concat};
use crate::types::Ds4QuantKind;

verus! {

/// Storage format of a tensor.
#[derive(Debug, Clone, Copy, PartialEq, Eq, Structural)]
pub enum GgufDType {
    F32,
    F16,
    Q8_0,
    Q4_K,
    Q3_K,
    Q2_K,
    Iq2Xxs,
    Other,
}

/// The name of a storage format.
pub open spec fn dtype_name(d: GgufDType) -> Seq<char> {
    match d {
        GgufDType::F32 => "F32"@,
        GgufDType::F16 => "F16"@,
        GgufDType::Q8_0 => "Q8_0"@,
        GgufDType::Q4_K => "Q4_K"@,
        GgufDType::Q3_K => "Q3_K"@,
        GgufDType::Q2_K => "Q2_K"@,
        GgufDType::Iq2Xxs => "Iq2Xxs"@,
        GgufDType::Other => "Other"@,
    }
}

impl GgufDType {
    /// The name of the storage format.
    pub fn name(&self) -> (r: &'static str)
        ensures
            r@ == dtype_name(*self),
    {
        match self {
            GgufDType::F32 => "F32",
            GgufDType::F16 => "F16",
            GgufDType::Q8_0 => "Q8_0",
            GgufDType::Q4_K => "Q4_K",
            GgufDType::Q3_K => "Q3_K",
            GgufDType::Q2_K => "Q2_K",
            GgufDType::Iq2Xxs => "Iq2Xxs",
            GgufDType::Other => "Other",
        }
    }
}

/// Number of elements that a block of the format holds.
pub open spec fn block_elements(d: GgufDType) -> nat {
    match d {
        GgufDType::Q8_0 => 32,
        GgufDType::Q4_K => 256,
        GgufDType::Q3_K => 256,
        GgufDType::Q2_K => 256,
        GgufDType::Iq2Xxs => 256,
        _ => 1,
    }
}

/// Number of bytes that a block of the format takes. Nothing is known of formats without a name.
pub open spec fn block_bytes(d: GgufDType) -> nat {
    match d {
        GgufDType::F32 => 4,
        GgufDType::F16 => 2,
        GgufDType::Q8_0 => 34,
        GgufDType::Q4_K => 144,
        GgufDType::Q3_K => 110,
        GgufDType::Q2_K => 84,
        GgufDType::Iq2Xxs => 66,
        GgufDType::Other => 0,
    }
}

impl GgufDType {
    /// Number of elements in a block.
    pub fn block_size(&self) -> (n: u64)
        ensures
            n == block_elements(*self),
            n > 0,
    {
        match self {
            GgufDType::Q8_0 => 32,
            GgufDType::Q4_K => 256,
            GgufDType::Q3_K => 256,
            GgufDType::Q2_K => 256,
            GgufDType::Iq2Xxs => 256,
            _ => 1,
        }
    }

    /// Number of bytes in a block.
    pub fn byte_size(&self) -> (n: u64)
        ensures
            n == block_bytes(*self),
    {
        match self {
            GgufDType::F32 => 4,
            GgufDType::F16 => 2,
            GgufDType::Q8_0 => 34,
            GgufDType::Q4_K => 144,
            GgufDType::Q3_K => 110,
            GgufDType::Q2_K => 84,
            GgufDType::Iq2Xxs => 66,
            GgufDType::Other => 0,
        }
    }
}

/// Number of elements of a tensor with these dimensions.
pub open spec fn element_count(dims: Seq<u32>) -> nat
    decreases dims.len(),
{
    if dims.len() == 0 {
        1
    } else {
        element_count(dims.drop_last()) * dims.last() as nat
    }
}

/// The elements can be counted in 64 bits.
pub open spec fn elements_countable(dims: Seq<u32>) -> bool {
    element_count(dims) <= u64::MAX
}

/// A dimension of zero leaves no element, and otherwise each further dimension leaves at least as
/// many.
pub proof fn law_element_count(dims: Seq<u32>, k: int)
    requires
        0 <= k <= dims.len(),
    ensures
        k < dims.len() && dims[k] == 0 ==> element_count(dims) == 0,
        (forall|i: int| k <= i < dims.len() ==> dims[i] > 0) ==> element_count(dims.take(k))
            <= element_count(dims),
    decreases dims.len(),
{
    if k == dims.len() {
        assert(dims.take(k) =~= dims);
    } else {
        let less = dims.drop_last();
        let n = element_count(less);
        let d = dims.last() as nat;
        law_element_count(less, k);
        assert(less.take(k) =~= dims.take(k));
        assert forall|i: int| k <= i < less.len() implies less[i] == dims[i] by {}
        if n == 0 || d == 0 {
            assert(n * d == 0) by (nonlinear_arith)
                requires
                    n == 0 || d == 0,
            ;
        }
        if d > 0 {
            assert(n <= n * d) by (nonlinear_arith)
                requires
                    d > 0,
            ;
        }
    }
}

/// Number of elements of a tensor with these dimensions, if it is at most `limit`.
pub fn count_up_to(dims: &[u32], limit: u64) -> (r: Option<u64>)
    requires
        limit > 0,
    ensures
        match r {
            Some(n) => n == element_count(dims@) && n <= limit,
            None => element_count(dims@) > limit,
        },
{
    let mut z: usize = 0;
    while z < dims.len()
        invariant
            z <= dims@.len(),
            forall|i: int| 0 <= i < z ==> dims@[i] > 0,
        decreases dims@.len() - z,
    {
        if dims[z] == 0 {
            proof {
                law_element_count(dims@, z as int);
            }
            return Some(0);
        }
        z += 1;
    }
    let mut n: u64 = 1;
    let mut i: usize = 0;
    assert(dims@.take(0) =~= Seq::<u32>::empty());
    while i < dims.len()
        invariant
            i <= dims@.len(),
            n <= limit,
            forall|k: int| 0 <= k < dims@.len() ==> dims@[k] > 0,
            n == element_count(dims@.take(i as int)),
        decreases dims@.len() - i,
    {
        proof {
            let next = dims@.take(i + 1);
            assert(next.drop_last() =~= dims@.take(i as int));
            assert(next.last() == dims@[i as int]);
            law_element_count(dims@, i + 1);
        }
        match n.checked_mul(dims[i] as u64) {
            Some(product) if product <= limit => {
                n = product;
            },
            _ => return None,
        }
        i += 1;
    }
    assert(dims@.take(i as int) =~= dims@);
    Some(n)
}

/// Number of elements of a tensor with these dimensions.
pub fn numel(dims: &[u32]) -> (n: u64)
    requires
        elements_countable(dims@),
    ensures
        n == element_count(dims@),
{
    match count_up_to(dims, u64::MAX) {
        Some(n) => n,
        None => u64::MAX,
    }
}

/// Number of blocks of `size` that hold `n` elements.
pub open spec fn blocks_needed(n: nat, size: nat) -> nat {
    if n % size == 0 {
        n / size
    } else {
        n / size + 1
    }
}

/// The blocks hold all elements, and one block fewer would not.
pub proof fn law_blocks_hold_all(n: nat, size: nat)
    requires
        size > 0,
    ensures
        blocks_needed(n, size) * size >= n,
        n > 0 ==> (blocks_needed(n, size) - 1) * size < n,
        n == 0 ==> blocks_needed(n, size) == 0,
{
    let q = n / size;
    let r = n % size;
    vstd::arithmetic::div_mod::lemma_fundamental_div_mod(n as int, size as int);
    assert(q * size + r == n) by (nonlinear_arith)
        requires
            n == size * q + r,
    ;
    assert((q + 1) * size == q * size + size) by (nonlinear_arith);
    assert((q - 1) * size == q * size - size) by (nonlinear_arith);
    if n == 0 {
        assert(q == 0 && r == 0) by (nonlinear_arith)
            requires
                n == size * q + r,
                n == 0,
                q >= 0,
                r >= 0,
                size > 0,
        ;
    }
}

/// Number of blocks of `size` that hold `n` elements.
pub fn count_blocks(n: u64, size: u64) -> (r: u64)
    requires
        size > 0,
    ensures
        r == blocks_needed(n as nat, size as nat),
        r <= n,
{
    proof {
        vstd::arithmetic::div_mod::lemma_fundamental_div_mod(n as int, size as int);
        let q = n / size;
        let m = n % size;
        assert(n == size * q + m);
        assert(q <= n) by (nonlinear_arith)
            requires
                n == size * q + m,
                size >= 1,
                m >= 0,
                q >= 0,
        ;
        assert(m > 0 ==> q + 1 <= n) by (nonlinear_arith)
            requires
                n == size * q + m,
                size >= 1,
                m >= 0,
                q >= 0,
        ;
    }
    if n % size == 0 {
        n / size
    } else {
        n / size + 1
    }
}

/// Name, dimensions and storage format of a tensor.
#[derive(Debug, Clone)]
pub struct TensorDescriptor {
    pub name: String,
    pub dims: Vec<u32>,
    pub dtype: GgufDType,
}

/// A metadata value.
#[derive(Debug, Clone)]
pub enum GgufValue {
    U32(u32),
    Text(String),
    ArrayStr(Vec<String>),
    Other,
}

/// The metadata that the engine knows by name.
#[derive(Debug, Clone, Copy)]
pub struct GgufMetadata {
    pub layer_count: Option<u32>,
    pub head_count: Option<u32>,
    pub head_dim: Option<u32>,
    pub vocab_size: Option<u32>,
    pub routed_quant: Option<Ds4QuantKind>,
    pub bos_token_id: Option<u32>,
    pub eos_token_id: Option<u32>,
    pub user_token_id: Option<u32>,
    pub assistant_token_id: Option<u32>,
    pub think_start_token_id: Option<u32>,
    pub think_end_token_id: Option<u32>,
    pub dsml_token_id: Option<u32>,
}

impl Default for GgufMetadata {
    fn default() -> (m: Self)
        ensures
            m == no_metadata(),
    {
        GgufMetadata {
            layer_count: None,
            head_count: None,
            head_dim: None,
            vocab_size: None,
            routed_quant: None,
            bos_token_id: None,
            eos_token_id: None,
            user_token_id: None,
            assistant_token_id: None,
            think_start_token_id: None,
            think_end_token_id: None,
            dsml_token_id: None,
        }
    }
}

/// Metadata in which nothing is given.
pub open spec fn no_metadata() -> GgufMetadata {
    GgufMetadata {
        layer_count: None,
        head_count: None,
        head_dim: None,
        vocab_size: None,
        routed_quant: None,
        bos_token_id: None,
        eos_token_id: None,
        user_token_id: None,
        assistant_token_id: None,
        think_start_token_id: None,
        think_end_token_id: None,
        dsml_token_id: None,
    }
}

/// One metadata entry.
#[derive(Debug, Clone)]
pub struct GgufEntry {
    pub key: String,
    pub value: GgufValue,
}

/// What was read of a model file.
#[derive(Debug, Clone)]
pub struct GgufFile {
    pub metadata: GgufMetadata,
    pub kv: Vec<GgufEntry>,
    pub tensors: Vec<TensorDescriptor>,
}

/// The first entry with this key at or after `from`.
pub open spec fn entry_from(kv: Seq<GgufEntry>, key: Seq<char>, from: int) -> Option<GgufValue>
    decreases kv.len() - from,
{
    if from < 0 || from >= kv.len() {
        None
    } else if kv[from].key@ == key {
        Some(kv[from].value)
    } else {
        entry_from(kv, key, from + 1)
    }
}

impl GgufFile {
    /// The value of a key.
    pub open spec fn entry(self, key: Seq<char>) -> Option<GgufValue> {
        entry_from(self.kv@, key, 0)
    }

    /// The strings that a key gives.
    pub open spec fn strings(self, key: Seq<char>) -> Option<Seq<String>> {
        match self.entry(key) {
            Some(GgufValue::ArrayStr(v)) => Some(v@),
            _ => None,
        }
    }

    /// The number that a key gives.
    pub open spec fn number(self, key: Seq<char>) -> Option<u32> {
        match self.entry(key) {
            Some(GgufValue::U32(v)) => Some(v),
            _ => None,
        }
    }

    /// The value of a key.
    pub fn kv_raw(&self, key: &str) -> (r: Option<&GgufValue>)
        ensures
            match r {
                Some(v) => self.entry(key@) == Some(*v),
                None => self.entry(key@) is None,
            },
    {
        let mut i: usize = 0;
        while i < self.kv.len()
            invariant
                i <= self.kv@.len(),
                entry_from(self.kv@, key@, i as int) == self.entry(key@),
            decreases self.kv@.len() - i,
        {
            if str_eq(self.kv[i].key.as_str(), key) {
                return Some(&self.kv[i].value);
            }
            i += 1;
        }
        None
    }

    /// The strings that a key gives.
    pub fn array_str(&self, key: &str) -> (r: Option<&Vec<String>>)
        ensures
            match r {
                Some(v) => self.strings(key@) == Some(v@),
                None => self.strings(key@) is None,
            },
    {
        match self.kv_raw(key) {
            Some(GgufValue::ArrayStr(v)) => Some(v),
            _ => None,
        }
    }
}

/// The number that a key gives.
pub fn gguf_u32(gguf: &GgufFile, key: &str) -> (r: Option<u32>)
    ensures
        r == gguf.number(key@),
{
    match gguf.kv_raw(key) {
        Some(GgufValue::U32(v)) => Some(*v),
        _ => None,
    }
}

/// The descriptor under a name: the last one that has it.
pub open spec fn descriptor_of(tensors: Seq<TensorDescriptor>, name: Seq<char>) -> Option<
    TensorDescriptor,
>
    decreases tensors.len(),
{
    if tensors.len() == 0 {
        None
    } else if tensors.last().name@ == name {
        Some(tensors.last())
    } else {
        descriptor_of(tensors.drop_last(), name)
    }
}

/// The descriptor under a name.
pub fn find_descriptor<'a>(tensors: &'a Vec<TensorDescriptor>, name: &str) -> (r: Option<
    &'a TensorDescriptor,
>)
    ensures
        match r {
            Some(d) => descriptor_of(tensors@, name@) == Some(*d),
            None => descriptor_of(tensors@, name@) is None,
        },
{
    let mut i: usize = tensors.len();
    assert(tensors@.take(i as int) =~= tensors@);
    while i > 0
        invariant
            i <= tensors@.len(),
            descriptor_of(tensors@.take(i as int), name@) == descriptor_of(tensors@, name@),
        decreases i,
    {
        proof {
            let part = tensors@.take(i as int);
            assert(part.last() == tensors@[i - 1]);
            assert(part.drop_last() =~= tensors@.take(i - 1));
        }
        i -= 1;
        if str_eq(tensors[i].name.as_str(), name) {
            return Some(&tensors[i]);
        }
    }
    None
}

/// The layer that a tensor name of the form `blk.N.` belongs to.
pub open spec fn layer_of_name(name: Seq<u8>) -> Option<usize> {
    if name.len() >= 4 && name[0] == 98 && name[1] == 108 && name[2] == 107 && name[3] == 46 {
        match dot_from(name, 4) {
            Some(k) => parsed_size(name.subrange(4, k)),
            None => None,
        }
    } else {
        None
    }
}

/// The number of layers that the names of tensors show: one more than the highest.
pub open spec fn layers_shown(tensors: Seq<TensorDescriptor>) -> nat
    decreases tensors.len(),
{
    if tensors.len() == 0 {
        0
    } else {
        let earlier = layers_shown(tensors.drop_last());
        match layer_of_name(encode_utf8(tensors.last().name@)) {
            Some(i) => if i + 1 > earlier {
                (i + 1) as nat
            } else {
                earlier
            },
            None => earlier,
        }
    }
}

fn name_layer(name: &str) -> (r: Option<usize>)
    ensures
        r == layer_of_name(name.spec_bytes()),
{
    let s: &[u8] = name.as_bytes();
    if s.len() >= 4 && s[0] == 98 && s[1] == 108 && s[2] == 107 && s[3] == 46 {
        match find_dot(s, 4) {
            Some(k) => parse_size(s, 4, k),
            None => None,
        }
    } else {
        None
    }
}

proof fn lemma_layers_shown(tensors: Seq<TensorDescriptor>, n: int)
    requires
        0 <= n <= tensors.len(),
    ensures
        layers_shown(tensors.take(n)) <= layers_shown(tensors),
    decreases tensors.len() - n,
{
    if n < tensors.len() {
        let next = tensors.take(n + 1);
        assert(next.drop_last() =~= tensors.take(n));
        lemma_layers_shown(tensors, n + 1);
    } else {
        assert(tensors.take(n) =~= tensors);
    }
}

/// The number of layers that the names of tensors show.
pub fn infer_layer_count(tensors: &Vec<TensorDescriptor>) -> (r: usize)
    requires
        layers_shown(tensors@) <= usize::MAX,
    ensures
        r == layers_shown(tensors@),
{
    let mut count: usize = 0;
    let mut i: usize = 0;
    while i < tensors.len()
        invariant
            i <= tensors@.len(),
            layers_shown(tensors@) <= usize::MAX,
            count == layers_shown(tensors@.take(i as int)),
        decreases tensors@.len() - i,
    {
        proof {
            let next = tensors@.take(i + 1);
            assert(next.drop_last() =~= tensors@.take(i as int));
            assert(next.last() == tensors@[i as int]);
            lemma_layers_shown(tensors@, i + 1);
        }
        if let Some(layer) = name_layer(tensors[i].name.as_str()) {
            if layer >= count {
                count = layer + 1;
            }
        }
        i += 1;
    }
    assert(tensors@.take(i as int) =~= tensors@);
    count
}

// ---- Laws of look-ups ----

/// The descriptor under a name is one of the list and has the name, and no later one has it. Where
/// there is none, none has it.
pub proof fn law_descriptor_of(tensors: Seq<TensorDescriptor>, name: Seq<char>)
    ensures
        match descriptor_of(tensors, name) {
            Some(d) => exists|i: int|
                0 <= i < tensors.len() && #[trigger] tensors[i] == d && d.name@ == name && forall|
                    j: int,
                |
                    i < j < tensors.len() ==> (#[trigger] tensors[j]).name@ != name,
            None => forall|i: int| 0 <= i < tensors.len() ==> (#[trigger] tensors[i]).name@ != name,
        },
    decreases tensors.len(),
{
    if tensors.len() > 0 {
        let less = tensors.drop_last();
        let last = tensors.len() - 1;
        assert(tensors.last() == tensors[last]);
        if tensors.last().name@ != name {
            law_descriptor_of(less, name);
            assert forall|j: int| 0 <= j < less.len() implies #[trigger] tensors[j] == less[j] by {}
            if let Some(d) = descriptor_of(tensors, name) {
                let i = choose|i: int|
                    0 <= i < less.len() && #[trigger] less[i] == d && d.name@ == name && forall|
                        j: int,
                    |
                        i < j < less.len() ==> (#[trigger] less[j]).name@ != name;
                assert(tensors[i] == d);
            }
        }
    }
}

/// A key that stands once in the entries gives the value that stands there, and a key that does
/// not stand there gives nothing.
pub proof fn law_entry(gguf: GgufFile, key: Seq<char>)
    ensures
        match gguf.entry(key) {
            Some(value) => exists|i: int|
                0 <= i < gguf.kv@.len() && (#[trigger] gguf.kv@[i]).key@ == key && gguf.kv@[i].value
                    == value && forall|j: int| 0 <= j < i ==> (#[trigger] gguf.kv@[j]).key@ != key,
            None => forall|i: int|
                0 <= i < gguf.kv@.len() ==> (#[trigger] gguf.kv@[i]).key@ != key,
        },
{
    lemma_entry(gguf.kv@, key, 0);
}

proof fn lemma_entry(kv: Seq<GgufEntry>, key: Seq<char>, from: int)
    requires
        0 <= from,
    ensures
        match entry_from(kv, key, from) {
            Some(value) => exists|i: int|
                from <= i < kv.len() && (#[trigger] kv[i]).key@ == key && kv[i].value == value
                    && forall|j: int| from <= j < i ==> (#[trigger] kv[j]).key@ != key,
            None => forall|i: int| from <= i < kv.len() ==> (#[trigger] kv[i]).key@ != key,
        },
    decreases kv.len() - from,
{
    if from < kv.len() {
        if kv[from].key@ != key {
            lemma_entry(kv, key, from + 1);
        } else {
            assert(kv[from].value == entry_from(kv, key, from).unwrap());
        }
    }
}

proof fn lemma_dot_from(s: Seq<u8>, k: int, from: int)
    requires
        0 <= from <= k < s.len(),
        s[k] == 46,
        forall|i: int| from <= i < k ==> s[i] != 46,
    ensures
        dot_from(s, from) == Some(k),
    decreases k - from,
{
    if from < k {
        lemma_dot_from(s, k, from + 1);
    }
}

/// A tensor whose name is `blk.`, a number, a dot and more belongs to the layer of that number.
pub proof fn law_layer_of_name(layer: usize, tail: Seq<char>)
    ensures
        layer_of_name(encode_utf8("blk."@ + dec(layer as nat) + "."@ + tail)) == Some(layer),
{
    let number = dec(layer as nat);
    let head = "blk."@ + number + "."@;
    reveal_strlit("blk.");
    reveal_strlit(".");
    lemma_dec_value(layer as nat);
    law_number_read_back(layer as u64);
    assert(is_ascii_chars(head)) by {
        assert forall|i: int| 0 <= i < head.len() implies '\0' <= #[trigger] head[i] <= '\u{7f}' by {
            if 4 <= i < 4 + number.len() {
                assert(head[i] == number[i - 4]);
            }
        }
    }
    is_ascii_chars_encode_utf8(head);
    law_encode_concat(head, tail);
    let s = encode_utf8(head + tail);
    let k = 4 + number.len() as int;
    assert forall|i: int| 0 <= i < head.len() implies #[trigger] s[i] == head[i] as u8 by {}
    assert forall|i: int| 4 <= i < k implies s[i] != 46 by {
        assert(head[i] == number[i - 4]);
    }
    assert(s[k] == 46);
    lemma_dot_from(s, k, 4);
    assert(s.subrange(4, k) =~= ascii_bytes(number));
}

/// The number of layers is one more than the highest number of a layer that a name gives, and 0
/// where no name gives one.
pub proof fn law_layers_shown(tensors: Seq<TensorDescriptor>)
    ensures
        forall|i: int|
            0 <= i < tensors.len() ==> (layer_of_name(encode_utf8((#[trigger] tensors[i]).name@))
                matches Some(l) ==> l < layers_shown(tensors)),
        layers_shown(tensors) > 0 ==> exists|i: int|
            0 <= i < tensors.len() && layer_of_name(encode_utf8((#[trigger] tensors[i]).name@))
                == Some((layers_shown(tensors) - 1) as usize),
    decreases tensors.len(),
{
    if tensors.len() > 0 {
        let less = tensors.drop_last();
        let last = tensors.len() - 1;
        law_layers_shown(less);
        assert(tensors[last] == tensors.last());
        assert forall|i: int| 0 <= i < less.len() implies #[trigger] tensors[i] == less[i] by {}
        if layers_shown(tensors) > 0 {
            if layers_shown(tensors) == layers_shown(less) {
                let i = choose|i: int|
                    0 <= i < less.len() && layer_of_name(
                        encode_utf8((#[trigger] less[i]).name@),
                    ) == Some((layers_shown(less) - 1) as usize);
                assert(tensors[i] == less[i]);
            } else {
                assert(layer_of_name(encode_utf8(tensors[last].name@)) == Some(
                    (layers_shown(tensors) - 1) as usize,
                ));
            }
        }
    }
}

/// A list has as many elements as its dimension says, and a matrix as many as its rows times its
/// columns; a further dimension multiplies.
pub proof fn law_element_count_product(a: u32, b: u32, dims: Seq<u32>)
    ensures
        element_count(seq![a]) == a,
        element_count(seq![a, b]) == a * b,
        element_count(dims.push(b)) == element_count(dims) * b,
{
    reveal_with_fuel(element_count, 3);
    assert(seq![a].drop_last() =~= Seq::<u32>::empty());
    assert(seq![a, b].drop_last() =~= seq![a]);
    assert(dims.push(b).drop_last() =~= dims);
    assert(1 * a as nat == a as nat) by (nonlinear_arith);
}

} // verus!
