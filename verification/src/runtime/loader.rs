//! Loading: what has to be read, converted and blended for each tensor of a model.

use vstd::prelude::*;

use super::lora::{lora_matrices, lora_vectors, matrices_in, vectors_in, MatrixModel, VectorModel};
use super::model::{Activation, Quant};
use super::reader::TensorModel;

pub use super::convert::{HalfData, TensorError};
pub use super::lora::{Lora, LoraBlend, LoraBlendPattern, LoraMatrix, LoraVector};
pub use super::reader::{Dtype, Reader, ReaderError, ReaderTensor, ShardedSafeTensors};

verus! {

/// What the sizes of a vector are padded to multiples of.
pub const PAD_VEC: [usize; 4] = [8, 1, 1, 1];

/// What the sizes of a matrix are padded to multiples of.
pub const PAD_MAT: [usize; 4] = [8, 8, 1, 1];

/// The degrees of freedom of the Student floats, as the bits of a 32-bit float.
pub const SF4_NU_BITS: u32 = 0x40a0_0000;

/// Why a model could not be loaded.
#[derive(Debug)]
pub enum LoaderError {
    /// The tensors are of no known model version.
    InvalidVersion,
    /// A tensor cannot be converted.
    TensorError(TensorError),
    /// A tensor could not be read.
    SafeTensor(ReaderError),
    /// A layer index in a tensor name is no number.
    ParseIntError,
    /// A blend pattern is no regular expression.
    RegexError(regex::Error),
}

/// The weights of a blend: that of the blended tensor and that of the tensor it is
/// blended into. Floats stand as the bits of 32-bit floats.
#[derive(Debug, Clone, Copy, PartialEq, Eq, Structural)]
pub enum Factor {
    /// `alpha` and `1 - alpha`.
    Interpolate {
        alpha: u32,
    },
    /// `alpha`, times the discount if there is one, and `1`.
    Sum {
        alpha: u32,
        discount: Option<u32>,
    },
    /// `alpha / rank`, times the discount if there is one, and `1`.
    LowRank {
        alpha: u32,
        rank: Option<usize>,
        discount: Option<u32>,
    },
}

/// An operation on a tensor that is being loaded.
#[derive(Debug)]
pub enum LoadOp<'a> {
    /// Blends a tensor of a LoRA into it, in the shape of that tensor.
    Blend {
        factor: Factor,
        tensor: ReaderTensor<'a>,
    },
    /// Blends the product of two factors of a LoRA into it.
    BlendLora {
        factor: Factor,
        x: ReaderTensor<'a>,
        y: ReaderTensor<'a>,
    },
    /// Applies a function to each of its elements.
    Activate(Activation),
    /// Copies it to a tensor of 16-bit floats, which takes its place.
    Blit,
}

/// A `LoadOp` as plain values.
pub enum OpModel {
    Blend {
        factor: Factor,
        tensor: TensorModel,
    },
    BlendLora {
        factor: Factor,
        x: TensorModel,
        y: TensorModel,
    },
    Activate(Activation),
    Blit,
}

impl<'a> View for LoadOp<'a> {
    type V = OpModel;

    open spec fn view(&self) -> OpModel {
        match self {
            LoadOp::Blend { factor, tensor } => OpModel::Blend { factor: *factor, tensor: tensor@ },
            LoadOp::BlendLora { factor, x, y } => OpModel::BlendLora {
                factor: *factor,
                x: x@,
                y: y@,
            },
            LoadOp::Activate(act) => OpModel::Activate(*act),
            LoadOp::Blit => OpModel::Blit,
        }
    }
}

/// What becomes of a stored tensor before the operations are applied to it.
#[derive(Debug, Clone, Copy, PartialEq, Eq)]
pub enum Prepare {
    /// It is read as 16-bit floats, widened to 32-bit floats and laid out in one
    /// dimension.
    VectorF32,
    /// It is read as 16-bit floats and laid out in one dimension.
    VectorF16,
    /// It is read as 16-bit floats.
    Matrix,
    /// It is read as 16-bit floats, and each is multiplied by the discount.
    DiscountedMatrix {
        discount: u32,
    },
    /// It is read as 16-bit floats, and fills a tensor that is there.
    MatrixInPlace,
    /// It is read as 16-bit floats, each is multiplied by the discount, and its first
    /// two dimensions fill a tensor that is there.
    DiscountedMatrixInPlace {
        discount: u32,
    },
    /// It is read as 16-bit floats and padded.
    Padded {
        pad: [usize; 4],
    },
}

/// How a tensor is loaded.
#[derive(Debug)]
pub struct LoadPlan<'a> {
    /// The stored tensor.
    pub source: ReaderTensor<'a>,
    /// What becomes of it first.
    pub prepare: Prepare,
    /// What is applied to it then, in order.
    pub ops: Vec<LoadOp<'a>>,
}

/// A `LoadPlan` as plain values.
pub struct PlanModel {
    pub source: TensorModel,
    pub prepare: Prepare,
    pub ops: Seq<OpModel>,
}

/// Operations as plain values.
pub open spec fn ops_view(ops: Seq<LoadOp<'_>>) -> Seq<OpModel> {
    ops.map_values(|op: LoadOp<'_>| op@)
}

impl<'a> View for LoadPlan<'a> {
    type V = PlanModel;

    open spec fn view(&self) -> PlanModel {
        PlanModel { source: self.source@, prepare: self.prepare, ops: ops_view(self.ops@) }
    }
}

/// How a vector of 16-bit floats is loaded. What the LoRAs have is converted before
/// the vector itself.
#[derive(Debug)]
pub struct VectorF16Plan<'a> {
    /// The stored tensor, if it is there.
    pub source: Result<ReaderTensor<'a>, ReaderError>,
    /// What becomes of it first.
    pub prepare: Prepare,
    /// What is applied to it then, in order.
    pub ops: Vec<LoadOp<'a>>,
}

/// How a matrix is loaded.
#[derive(Debug)]
pub enum MatrixPlan<'a> {
    /// As 16-bit floats.
    Fp16(LoadPlan<'a>),
    /// Into a buffer of this shape, which is quantized then.
    Quantized {
        shape: Vec<usize>,
        load: Result<LoadPlan<'a>, LoaderError>,
        quant: Quant,
    },
}

/// The blends that interpolate a vector with what the LoRAs have.
pub open spec fn interpolations(vectors: Seq<VectorModel>) -> Seq<OpModel> {
    vectors.map_values(
        |v: VectorModel| OpModel::Blend {
            factor: Factor::Interpolate { alpha: v.alpha },
            tensor: v.tensor,
        },
    )
}

/// The blends that add the tensors of LoRAs to a matrix.
pub open spec fn sums(vectors: Seq<VectorModel>, discount: Option<u32>) -> Seq<OpModel> {
    vectors.map_values(
        |v: VectorModel| OpModel::Blend {
            factor: Factor::Sum { alpha: v.alpha, discount },
            tensor: v.tensor,
        },
    )
}

/// The blends that add the products of LoRA factors to a matrix.
pub open spec fn low_rank_sums(matrices: Seq<MatrixModel>, discount: Option<u32>) -> Seq<OpModel> {
    matrices.map_values(
        |m: MatrixModel| OpModel::BlendLora {
            factor: Factor::LowRank { alpha: m.alpha, rank: m.rank, discount },
            x: m.x,
            y: m.y,
        },
    )
}

/// A model whose weights are to be loaded.
pub struct Loader<R> {
    /// The tensors of the model.
    pub model: R,
    /// The LoRAs that are blended into it, in order.
    pub lora: Vec<Lora<R>>,
}

fn vector_ops<'a>(vectors: Vec<LoraVector<'a>>) -> (r: Vec<LoadOp<'a>>)
    ensures
        ops_view(r@) == interpolations(vectors@.map_values(|v: LoraVector<'a>| v@)),
{
    let ghost all = vectors@;
    let ghost view = |v: LoraVector<'a>| v@;
    let mut ops: Vec<LoadOp<'a>> = Vec::new();
    for v in it: vectors
        invariant
            it.seq() == all,
            view == (|v: LoraVector<'a>| v@),
            ops_view(ops@) == interpolations(all.take(it.index()).map_values(view)),
    {
        let ghost before = ops@;
        let ghost k = it.index();
        ops.push(
            LoadOp::Blend { factor: Factor::Interpolate { alpha: v.alpha }, tensor: v.tensor },
        );
        proof {
            assert(ops_view(ops@) =~= ops_view(before).push(ops@.last()@));
            assert(interpolations(all.take(k + 1).map_values(view)) =~= interpolations(
                all.take(k).map_values(view),
            ).push(ops@.last()@));
        }
    }
    assert(all.take(all.len() as int) =~= all);
    ops
}

fn matrix_ops<'a>(
    matrices: Vec<LoraMatrix<'a>>,
    vectors: Vec<LoraVector<'a>>,
    discount: Option<u32>,
) -> (r: Vec<LoadOp<'a>>)
    ensures
        ops_view(r@) == low_rank_sums(matrices@.map_values(|m: LoraMatrix<'a>| m@), discount)
            + sums(vectors@.map_values(|v: LoraVector<'a>| v@), discount),
{
    let ghost pairs = matrices@;
    let ghost pair_view = |m: LoraMatrix<'a>| m@;
    let mut ops: Vec<LoadOp<'a>> = Vec::new();
    for m in it: matrices
        invariant
            it.seq() == pairs,
            pair_view == (|m: LoraMatrix<'a>| m@),
            ops_view(ops@) == low_rank_sums(
                pairs.take(it.index()).map_values(pair_view),
                discount,
            ),
    {
        let ghost before = ops@;
        let ghost k = it.index();
        ops.push(
            LoadOp::BlendLora {
                factor: Factor::LowRank { alpha: m.alpha, rank: m.rank, discount },
                x: m.x,
                y: m.y,
            },
        );
        proof {
            assert(ops_view(ops@) =~= ops_view(before).push(ops@.last()@));
            assert(low_rank_sums(pairs.take(k + 1).map_values(pair_view), discount)
                =~= low_rank_sums(pairs.take(k).map_values(pair_view), discount).push(
                ops@.last()@,
            ));
        }
    }
    assert(pairs.take(pairs.len() as int) =~= pairs);
    let ghost first = ops_view(ops@);
    let ghost all = vectors@;
    let ghost view = |v: LoraVector<'a>| v@;
    assert(first + sums(all.take(0).map_values(view), discount) =~= first);
    for v in it: vectors
        invariant
            it.seq() == all,
            view == (|v: LoraVector<'a>| v@),
            ops_view(ops@) == first + sums(all.take(it.index()).map_values(view), discount),
    {
        let ghost before = ops@;
        let ghost k = it.index();
        ops.push(
            LoadOp::Blend { factor: Factor::Sum { alpha: v.alpha, discount }, tensor: v.tensor },
        );
        proof {
            assert(ops_view(ops@) =~= ops_view(before).push(ops@.last()@));
            assert(first + sums(all.take(k + 1).map_values(view), discount) =~= (first + sums(
                all.take(k).map_values(view),
                discount,
            )).push(ops@.last()@));
        }
    }
    assert(all.take(all.len() as int) =~= all);
    ops
}

impl<R: Reader> Loader<R> {
    /// The interpolations with what the LoRAs have of a name.
    pub open spec fn vector_blends(&self, name: Seq<char>) -> Seq<OpModel> {
        interpolations(vectors_in(self.lora@, name))
    }

    /// The sums with what the LoRAs have for a matrix: first the products of their
    /// factors, then their tensors of the same name.
    pub open spec fn matrix_blends(&self, name: Seq<char>, discount: Option<u32>) -> Seq<OpModel> {
        low_rank_sums(matrices_in(self.lora@, name), discount) + sums(
            vectors_in(self.lora@, name),
            discount,
        )
    }

    /// A plan starts from the tensor of a name, which is there, and goes on as said.
    pub open spec fn plans(
        &self,
        r: Result<LoadPlan<'_>, LoaderError>,
        name: Seq<char>,
        prepare: Prepare,
        ops: Seq<OpModel>,
    ) -> bool {
        match self.model.tensor_of(name) {
            Some(source) => r matches Ok(plan) && plan@ == (PlanModel { source, prepare, ops }),
            None => r matches Err(LoaderError::SafeTensor(e)) && self.model.tensor_error(name, e),
        }
    }

    /// The shape of a tensor of the model: the dimensions in which it is stored, the last
    /// of them first.
    pub fn tensor_shape(&self, name: &str) -> (r: Result<Vec<usize>, LoaderError>)
        ensures
            match self.model.shape_of(name@) {
                Some(shape) => r matches Ok(s) && s@ == shape.reverse(),
                None => r matches Err(LoaderError::SafeTensor(e)) && self.model.shape_error(
                    name@,
                    e,
                ),
            },
    {
        match self.model.shape(name) {
            Ok(stored) => {
                let mut shape: Vec<usize> = Vec::new();
                let mut i: usize = stored.len();
                while i > 0
                    invariant
                        i <= stored@.len(),
                        shape@ == stored@.skip(i as int).reverse(),
                    decreases i,
                {
                    i -= 1;
                    shape.push(stored[i]);
                    assert(shape@ =~= stored@.skip(i as int).reverse());
                }
                assert(stored@.skip(0) =~= stored@);
                Ok(shape)
            },
            Err(e) => Err(LoaderError::SafeTensor(e)),
        }
    }

    fn vector_plan(&self, name: &str, end: Option<Activation>) -> (r: Result<
        LoadPlan<'_>,
        LoaderError,
    >)
        ensures
            self.plans(
                r,
                name@,
                Prepare::VectorF32,
                match end {
                    Some(act) => self.vector_blends(name@).push(OpModel::Activate(act)),
                    None => self.vector_blends(name@),
                },
            ),
    {
        match self.model.tensor(name) {
            Ok(source) => {
                let mut ops = vector_ops(lora_vectors(&self.lora, name));
                if let Some(act) = end {
                    let ghost before = ops@;
                    ops.push(LoadOp::Activate(act));
                    assert(ops_view(ops@) =~= ops_view(before).push(OpModel::Activate(act)));
                }
                Ok(LoadPlan { source, prepare: Prepare::VectorF32, ops })
            },
            Err(e) => Err(LoaderError::SafeTensor(e)),
        }
    }

    /// A vector of 32-bit floats.
    pub fn load_vector_f32(&self, name: &str) -> (r: Result<LoadPlan<'_>, LoaderError>)
        ensures
            self.plans(r, name@, Prepare::VectorF32, self.vector_blends(name@)),
    {
        self.vector_plan(name, None)
    }

    /// A vector of 32-bit floats `-exp(x)`.
    pub fn load_vector_exp_f32(&self, name: &str) -> (r: Result<LoadPlan<'_>, LoaderError>)
        ensures
            self.plans(
                r,
                name@,
                Prepare::VectorF32,
                self.vector_blends(name@).push(OpModel::Activate(Activation::OppositeExp)),
            ),
    {
        self.vector_plan(name, Some(Activation::OppositeExp))
    }

    /// A vector of 32-bit floats `exp(-exp(x))`.
    pub fn load_vector_exp_exp_f32(&self, name: &str) -> (r: Result<LoadPlan<'_>, LoaderError>)
        ensures
            self.plans(
                r,
                name@,
                Prepare::VectorF32,
                self.vector_blends(name@).push(OpModel::Activate(Activation::StableExp)),
            ),
    {
        self.vector_plan(name, Some(Activation::StableExp))
    }

    /// A vector of 16-bit floats. It is blended as 32-bit floats, if it is blended.
    pub fn load_vector_f16(&self, name: &str) -> (r: VectorF16Plan<'_>)
        ensures
            match self.model.tensor_of(name@) {
                Some(source) => r.source matches Ok(s) && s@ == source,
                None => r.source matches Err(e) && self.model.tensor_error(name@, e),
            },
            self.vector_blends(name@).len() == 0 ==> r.prepare == Prepare::VectorF16 && ops_view(
                r.ops@,
            ) == Seq::<OpModel>::empty(),
            self.vector_blends(name@).len() > 0 ==> r.prepare == Prepare::VectorF32 && ops_view(
                r.ops@,
            ) == self.vector_blends(name@).push(OpModel::Blit),
    {
        let mut ops = vector_ops(lora_vectors(&self.lora, name));
        assert(ops_view(ops@).len() == ops@.len());
        let source = self.model.tensor(name);
        if ops.is_empty() {
            assert(ops_view(ops@) =~= Seq::<OpModel>::empty());
            VectorF16Plan { source, prepare: Prepare::VectorF16, ops }
        } else {
            let ghost before = ops@;
            ops.push(LoadOp::Blit);
            assert(ops_view(ops@) =~= ops_view(before).push(OpModel::Blit));
            VectorF16Plan { source, prepare: Prepare::VectorF32, ops }
        }
    }

    fn matrix_plan(&self, name: &str, prepare: Prepare, discount: Option<u32>) -> (r: Result<
        LoadPlan<'_>,
        LoaderError,
    >)
        ensures
            self.plans(r, name@, prepare, self.matrix_blends(name@, discount)),
    {
        match self.model.tensor(name) {
            Ok(source) => {
                let ops = matrix_ops(
                    lora_matrices(&self.lora, name),
                    lora_vectors(&self.lora, name),
                    discount,
                );
                Ok(LoadPlan { source, prepare, ops })
            },
            Err(e) => Err(LoaderError::SafeTensor(e)),
        }
    }

    /// A matrix of 16-bit floats.
    pub fn load_matrix_f16(&self, name: &str) -> (r: Result<LoadPlan<'_>, LoaderError>)
        ensures
            self.plans(r, name@, Prepare::Matrix, self.matrix_blends(name@, None)),
    {
        self.matrix_plan(name, Prepare::Matrix, None)
    }

    /// A matrix of 16-bit floats, multiplied by a discount.
    pub fn load_matrix_f16_discount(&self, name: &str, discount: u32) -> (r: Result<
        LoadPlan<'_>,
        LoaderError,
    >)
        ensures
            self.plans(
                r,
                name@,
                Prepare::DiscountedMatrix { discount },
                self.matrix_blends(name@, Some(discount)),
            ),
    {
        self.matrix_plan(name, Prepare::DiscountedMatrix { discount }, Some(discount))
    }

    /// A matrix of 16-bit floats, in a tensor that is there.
    pub fn load_in_place_matrix_f16(&self, name: &str) -> (r: Result<LoadPlan<'_>, LoaderError>)
        ensures
            self.plans(r, name@, Prepare::MatrixInPlace, self.matrix_blends(name@, None)),
    {
        self.matrix_plan(name, Prepare::MatrixInPlace, None)
    }

    /// A matrix of 16-bit floats, multiplied by a discount, in a tensor that is there.
    pub fn load_in_place_matrix_f16_discount(&self, name: &str, discount: u32) -> (r: Result<
        LoadPlan<'_>,
        LoaderError,
    >)
        ensures
            self.plans(
                r,
                name@,
                Prepare::DiscountedMatrixInPlace { discount },
                self.matrix_blends(name@, Some(discount)),
            ),
    {
        self.matrix_plan(name, Prepare::DiscountedMatrixInPlace { discount }, Some(discount))
    }

    /// A padded matrix of 16-bit floats that stays in main memory. No LoRA is blended
    /// into it.
    pub fn load_matrix_f16_padded_cpu(&self, name: &str) -> (r: Result<LoadPlan<'_>, LoaderError>)
        ensures
            self.plans(r, name@, Prepare::Padded { pad: PAD_MAT }, Seq::<OpModel>::empty()),
    {
        match self.model.tensor(name) {
            Ok(source) => {
                let ops: Vec<LoadOp<'_>> = Vec::new();
                assert(ops_view(ops@) =~= Seq::<OpModel>::empty());
                Ok(LoadPlan { source, prepare: Prepare::Padded { pad: PAD_MAT }, ops })
            },
            Err(e) => Err(LoaderError::SafeTensor(e)),
        }
    }

    /// A padded matrix of 16-bit floats. No LoRA is blended into it.
    pub fn load_matrix_f16_padded(&self, name: &str) -> (r: Result<LoadPlan<'_>, LoaderError>)
        ensures
            self.plans(r, name@, Prepare::Padded { pad: PAD_MAT }, Seq::<OpModel>::empty()),
    {
        self.load_matrix_f16_padded_cpu(name)
    }

    /// A result is a plan for a matrix: by `direct` where it is not quantized, and
    /// otherwise by `in_place`, which fills a buffer of its shape.
    pub open spec fn plans_matrix(
        &self,
        r: Result<MatrixPlan<'_>, LoaderError>,
        name: Seq<char>,
        quant: Quant,
        discount: Option<u32>,
        direct: Prepare,
        in_place: Prepare,
    ) -> bool {
        let ops = self.matrix_blends(name, discount);
        if quant == Quant::Fp16 {
            match r {
                Ok(MatrixPlan::Fp16(plan)) => self.plans(Ok(plan), name, direct, ops),
                Ok(_) => false,
                Err(e) => self.plans(Err(e), name, direct, ops),
            }
        } else {
            match self.model.shape_of(name) {
                Some(stored) => r matches Ok(MatrixPlan::Quantized { shape, load, quant: q })
                    && shape@ == stored.reverse() && q == quant && self.plans(load, name, in_place, ops),
                None => r matches Err(LoaderError::SafeTensor(e)) && self.model.shape_error(
                    name,
                    e,
                ),
            }
        }
    }

    /// A matrix, quantized as asked for.
    pub fn load_matrix(&self, name: &str, quant: Quant) -> (r: Result<MatrixPlan<'_>, LoaderError>)
        ensures
            self.plans_matrix(r, name@, quant, None, Prepare::Matrix, Prepare::MatrixInPlace),
    {
        if quant == Quant::Fp16 {
            match self.load_matrix_f16(name) {
                Ok(plan) => Ok(MatrixPlan::Fp16(plan)),
                Err(e) => Err(e),
            }
        } else {
            match self.tensor_shape(name) {
                Ok(shape) => {
                    let load = self.load_in_place_matrix_f16(name);
                    Ok(MatrixPlan::Quantized { shape, load, quant })
                },
                Err(e) => Err(e),
            }
        }
    }

    /// A matrix, multiplied by a discount and quantized as asked for.
    pub fn load_matrix_discount(&self, name: &str, quant: Quant, discount: u32) -> (r: Result<
        MatrixPlan<'_>,
        LoaderError,
    >)
        ensures
            self.plans_matrix(
                r,
                name@,
                quant,
                Some(discount),
                Prepare::DiscountedMatrix { discount },
                Prepare::DiscountedMatrixInPlace { discount },
            ),
    {
        if quant == Quant::Fp16 {
            match self.load_matrix_f16_discount(name, discount) {
                Ok(plan) => Ok(MatrixPlan::Fp16(plan)),
                Err(e) => Err(e),
            }
        } else {
            match self.tensor_shape(name) {
                Ok(shape) => {
                    let load = self.load_in_place_matrix_f16_discount(name, discount);
                    Ok(MatrixPlan::Quantized { shape, load, quant })
                },
                Err(e) => Err(e),
            }
        }
    }
}

} // verus!
