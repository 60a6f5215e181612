use vstd::prelude::*;
use crate::types::DataType;
use crate::model_architectures::{extract_num, spec_extract_num};

verus! {

/// The product of the dimensions of a shape (1 for no dimension).
pub open spec fn shape_product(shape: Seq<usize>) -> int
    decreases shape.len(),
{
    if shape.len() == 0 {
        1
    } else {
        shape_product(shape.drop_last()) * shape.last()
    }
}

/// Every running product of the dimensions fits in a `usize`.
pub open spec fn products_fit(shape: Seq<usize>) -> bool {
    forall|k: int| 0 <= k <= shape.len() ==> #[trigger] shape_product(shape.take(k)) <= usize::MAX
}

/// The bytes that `n` elements take in the GGUF encoding numbered `dtype`.
pub open spec fn spec_tensor_bytes(n: int, dtype: u32) -> int {
    if dtype == 0 {
        n * 4
    } else if dtype == 1 || dtype == 2 {
        n * 2
    } else if dtype == 3 {
        n
    } else if dtype == 4 || dtype == 6 {
        (n / 16) * 2 + n / 4
    } else if dtype == 5 || dtype == 7 {
        (n / 16) * 3 + n / 4
    } else if dtype == 8 {
        (n / 16) * 4 + n / 4
    } else if dtype == 9 {
        (n / 64) * 6 + n / 2
    } else if 10 <= dtype <= 12 {
        (n / 256) * 2 + n / 8
    } else if dtype == 13 {
        n / 256 + n / 8
    } else if dtype == 14 {
        (n / 64) * 2 + n / 8
    } else {
        n * 4
    }
}

/// The bytes of a tensor of the given shape in the GGUF encoding numbered `dtype`.
pub fn calculate_tensor_size(shape: &[usize], dtype: u32) -> (r: usize)
    requires
        products_fit(shape@),
        spec_tensor_bytes(shape_product(shape@), dtype) <= usize::MAX,
        (dtype == 0 || dtype > 14) ==> shape_product(shape@) * 4 <= usize::MAX,
        (dtype == 1 || dtype == 2) ==> shape_product(shape@) * 2 <= usize::MAX,
    ensures
        r == spec_tensor_bytes(shape_product(shape@), dtype),
{
    let mut n: usize = 1;
    let mut k: usize = 0;
    proof {
        assert(shape@.take(0) =~= Seq::<usize>::empty());
    }
    while k < shape.len()
        invariant
            k <= shape@.len(),
            products_fit(shape@),
            n == shape_product(shape@.take(k as int)),
        decreases shape@.len() - k,
    {
        proof {
            assert(shape@.take(k + 1).drop_last() =~= shape@.take(k as int));
            assert(shape_product(shape@.take(k + 1)) <= usize::MAX);
        }
        n = n * shape[k];
        k += 1;
    }
    proof {
        assert(shape@.take(shape@.len() as int) =~= shape@);
    }
    match dtype {
        0 => n * 4,
        1 => n * 2,
        2 => n * 2,
        3 => n * 1,
        4 => (n / 16) * 2 + n / 4,
        5 => (n / 16) * 3 + n / 4,
        6 => (n / 16) * 2 + n / 4,
        7 => (n / 16) * 3 + n / 4,
        8 => (n / 16) * 4 + n / 4,
        9 => (n / 64) * 6 + n / 2,
        10 => (n / 256) * 2 + n / 8,
        11 => (n / 256) * 2 + n / 8,
        12 => (n / 256) * 2 + n / 8,
        13 => (n / 256) * 1 + n / 8,
        14 => (n / 64) * 2 + n / 8,
        _ => n * 4,
    }
}

/// The encoding that a GGUF type number stands for (`F16` for numbers it does not know).
pub open spec fn spec_gguf_datatype(dtype: u32) -> DataType {
    if dtype == 0 {
        DataType::F32
    } else if dtype == 1 {
        DataType::F16
    } else if dtype == 2 {
        DataType::BF16
    } else if dtype == 3 || dtype == 8 {
        DataType::Q8_0
    } else if dtype == 4 {
        DataType::Q4_0
    } else if dtype == 5 {
        DataType::Q4_1
    } else if dtype == 6 {
        DataType::Q5_0
    } else if dtype == 7 {
        DataType::Q5_1
    } else if dtype == 9 {
        DataType::Q4_K
    } else if dtype == 10 {
        DataType::Q5_K
    } else if dtype == 11 {
        DataType::Q6_K
    } else if dtype == 12 {
        DataType::IQ2_XXS
    } else if dtype == 13 {
        DataType::IQ2_XS
    } else if dtype == 14 {
        DataType::IQ3_XS
    } else {
        DataType::F16
    }
}

/// The encoding that a GGUF type number stands for.
pub fn gguf_dtype_to_datatype(dtype: u32) -> (r: DataType)
    ensures
        r == spec_gguf_datatype(dtype),
{
    match dtype {
        0 => DataType::F32,
        1 => DataType::F16,
        2 => DataType::BF16,
        3 => DataType::Q8_0,
        4 => DataType::Q4_0,
        5 => DataType::Q4_1,
        6 => DataType::Q5_0,
        7 => DataType::Q5_1,
        8 => DataType::Q8_0,
        9 => DataType::Q4_K,
        10 => DataType::Q5_K,
        11 => DataType::Q6_K,
        12 => DataType::IQ2_XXS,
        13 => DataType::IQ2_XS,
        14 => DataType::IQ3_XS,
        _ => DataType::F16,
    }
}

/// The number that the decimal digits of a metadata key spell, read together.
pub fn extract_number(s: &str) -> (r: Option<usize>)
    ensures
        r == spec_extract_num(s@),
{
    extract_num(s)
}

} // verus!
