//! Host tensors: an element type, dimensions and raw bytes.

use vstd::prelude::*;

use crate::le::{le_words, lemma_words_roundtrip, put_words, unpack_words, words_of};

verus! {

/// Element type of a tensor.
#[derive(Debug, Clone, Copy, PartialEq, Eq, Structural)]
pub enum DType {
    F32,
    F16,
    BF16,
    F64,
    I8,
    U8,
    I64,
    U32,
    U64,
}

/// Dimensions of a tensor, outermost first.
#[derive(Debug, Clone)]
pub struct Shape {
    pub dims: Vec<usize>,
}

impl Shape {
    /// A shape with these dimensions.
    pub fn new(dims: Vec<usize>) -> (s: Self)
        ensures
            s.dims@ == dims@,
    {
        Shape { dims }
    }

    /// The dimensions.
    pub fn dims(&self) -> (d: &[usize])
        ensures
            d@ == self.dims@,
    {
        self.dims.as_slice()
    }
}

/// A tensor in host memory. Single-precision elements are held by their bit patterns.
#[derive(Debug, Clone)]
pub struct Tensor {
    pub dtype: DType,
    pub shape: Shape,
    pub data: Vec<u8>,
}

/// What a tensor holds.
pub struct TensorView {
    pub dtype: DType,
    pub dims: Seq<usize>,
    pub data: Seq<u8>,
}

impl View for Tensor {
    type V = TensorView;

    open spec fn view(&self) -> TensorView {
        TensorView { dtype: self.dtype, dims: self.shape.dims@, data: self.data@ }
    }
}

impl Tensor {
    /// A single-precision tensor from the bit patterns of its elements.
    pub fn from_f32_bits(values: &[u32], shape: Shape) -> (t: Self)
        ensures
            t@ == (TensorView { dtype: DType::F32, dims: shape.dims@, data: le_words(values@) }),
            words_of(t@.data) == values@,
    {
        let mut data: Vec<u8> = Vec::new();
        put_words(&mut data, values);
        proof {
            lemma_words_roundtrip(values@);
            assert(data@ =~= le_words(values@));
        }
        Tensor { dtype: DType::F32, shape, data }
    }

    /// The bit patterns of the elements, each taken from four bytes.
    pub fn as_f32_bits(&self) -> (r: Vec<u32>)
        ensures
            r@ == words_of(self@.data),
    {
        unpack_words(self.data.as_slice())
    }

    /// The raw bytes.
    pub fn as_bytes(&self) -> (r: &[u8])
        ensures
            r@ == self@.data,
    {
        self.data.as_slice()
    }

    /// A tensor that holds the same.
    pub fn duplicate(&self) -> (t: Self)
        ensures
            t@ == self@,
    {
        let dims: Vec<usize> = self.shape.dims.clone();
        let data: Vec<u8> = self.data.clone();
        proof {
            assert(dims@ =~= self.shape.dims@);
            assert(data@ =~= self.data@);
        }
        Tensor { dtype: self.dtype, shape: Shape { dims }, data }
    }
}

} // verus!
