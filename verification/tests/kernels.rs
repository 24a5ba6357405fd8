use ds4::backend_cpu::matmul::{
    block_span, blocks_per_row, check_matmul_blocks, check_matmul_f32, check_row_blocks,
    matmul_q4_k_via_q8, matmul_term, view_index, MatmulFault, Q4_K_BLOCK, Q8_0_BLOCK,
};
use ds4::backend_cpu::rmsnorm::{check_rms_norm, NormFault};
use ds4::backend_cpu::rope::{rope_pair, rope_tokens, RopeFault};
use ds4::backend_cpu::softmax::{softmax_max, temperature_accepted};
use ds4::backend_cuda::launch::{
    launch_embedding as cuda_launch_embedding, launch_op as cuda_launch_op, CudaArg, CudaKernel,
    ROPE_BASE,
};
use ds4::backend_cuda::runtime::kernel_name;
use ds4::graph::{LayerBuf, LayerOp, LayerWeight};
use ds4::half::half_to_single;

#[test]
fn matmul_terms_give_the_product() {
    // [1 2; 3 4] * [5 6; 7 8]
    let a = [1.0f32, 2.0, 3.0, 4.0];
    let b = [5.0f32, 6.0, 7.0, 8.0];
    let mut c = [0.0f32; 4];
    assert_eq!(check_matmul_f32(a.len(), b.len(), c.len(), 2, 2, 2), None);
    for i in 0..2 {
        for j in 0..2 {
            for p in 0..2 {
                let t = matmul_term(i, j, p, 2, 2, 2);
                c[t.c] += a[t.a] * b[t.b];
            }
        }
    }
    assert_eq!(c, [19.0, 22.0, 43.0, 50.0]);
}

#[test]
fn matmul_buffers_must_have_their_sizes() {
    assert_eq!(check_matmul_f32(5, 4, 4, 2, 2, 2), Some(MatmulFault::A));
    assert_eq!(check_matmul_f32(4, 5, 4, 2, 2, 2), Some(MatmulFault::B));
    assert_eq!(check_matmul_f32(4, 4, 5, 2, 2, 2), Some(MatmulFault::C));
    assert_eq!(
        check_matmul_f32(0, 0, 0, usize::MAX, 2, 2),
        Some(MatmulFault::A)
    );
    assert_eq!(check_matmul_blocks(64, 3, 6, 2, 3, 32), None);
    assert_eq!(
        check_matmul_blocks(64, 2, 6, 2, 3, 32),
        Some(MatmulFault::B)
    );
    assert_eq!(
        check_row_blocks("matmul_q8_0", 1, 1, 40, Q8_0_BLOCK).unwrap(),
        "matmul_q8_0: row 1 has 1 blocks, need >= 2"
    );
    assert!(check_row_blocks("matmul_q8_0", 1, 2, 40, Q8_0_BLOCK).is_none());
}

#[test]
fn blocks_cover_a_row_once() {
    for k in [1usize, 31, 32, 33, 70] {
        let mut hits = vec![0; k];
        for block in 0..blocks_per_row(k, Q8_0_BLOCK) {
            let s = block_span(k, Q8_0_BLOCK, block);
            for p in s.start..s.end {
                hits[p] += 1;
                assert_eq!(p / Q8_0_BLOCK, block);
            }
        }
        assert_eq!(hits, vec![1; k]);
    }
    assert_eq!(blocks_per_row(0, Q4_K_BLOCK), 0);
    assert_eq!(blocks_per_row(257, Q4_K_BLOCK), 2);
}

#[test]
fn prepared_views_are_counted() {
    assert!(matmul_q4_k_via_q8(4, 2, 2, 1, 2, 512).is_ok());
    assert_eq!(
        matmul_q4_k_via_q8(3, 2, 2, 1, 2, 512),
        Err("matmul_q4_k_via_q8: q8 view count must equal n * blocks_per_row")
    );
    assert_eq!(
        matmul_q4_k_via_q8(4, 1, 2, 1, 2, 512),
        Err("matmul_q4_k_via_q8: weights outer length must be n")
    );
    assert_eq!(
        matmul_q4_k_via_q8(4, 2, 3, 1, 2, 512),
        Err("matmul_q4_k_via_q8: out length mismatch")
    );
    assert_eq!(view_index(1, 1, 2, 2), 3);
}

#[test]
fn rope_pairs_cover_the_buffer_once() {
    let base = 10_000.0f32.to_bits();
    assert_eq!(rope_tokens(24, 2, 4, base), Ok(3));
    let mut hits = vec![0; 24];
    for token in 0..3 {
        for head in 0..2 {
            for i in 0..2 {
                let p = rope_pair(7, token, head, i, 3, 2, 4);
                assert_eq!(p.second, p.first + 1);
                assert_eq!(p.pos, 7 + token);
                hits[p.first] += 1;
                hits[p.second] += 1;
            }
        }
    }
    assert_eq!(hits, vec![1; 24]);
    assert_eq!(rope_tokens(3, 1, 3, base), Err(RopeFault::OddHead));
    assert_eq!(rope_tokens(4, 1, 4, 0), Err(RopeFault::Base));
    assert_eq!(
        rope_tokens(4, 1, 4, f32::NAN.to_bits()),
        Err(RopeFault::Base)
    );
    assert_eq!(rope_tokens(5, 1, 4, base), Err(RopeFault::Length));
}

#[test]
fn softmax_subtracts_the_greatest() {
    let x: Vec<u32> = [0.5f32, -2.0, 3.0, 1.0].iter().map(|v| v.to_bits()).collect();
    assert_eq!(softmax_max(&x), Some(3.0f32.to_bits()));
    assert_eq!(softmax_max(&[]), None);
    let y: Vec<u32> = [f32::NAN, 1.0].iter().map(|v| v.to_bits()).collect();
    assert!(f32::from_bits(softmax_max(&y).unwrap()).is_nan());
    assert!(temperature_accepted(0.7f32.to_bits()));
    assert!(!temperature_accepted(0.0f32.to_bits()));
    assert!(!temperature_accepted(f32::INFINITY.to_bits()));
    assert!(!temperature_accepted(f32::NAN.to_bits()));
}

#[test]
fn norm_needs_weights_and_an_epsilon() {
    assert_eq!(check_rms_norm(4, 4, 1e-6f32.to_bits()), None);
    assert_eq!(
        check_rms_norm(4, 3, 1e-6f32.to_bits()),
        Some(NormFault::Length)
    );
    assert_eq!(check_rms_norm(4, 4, 0), Some(NormFault::Epsilon));
}

#[test]
fn cuda_launches_carry_sizes_and_formats() {
    let l = cuda_launch_op(
        LayerOp::StoreV {
            start: 1024,
            n: 512,
        },
        0,
        2,
    );
    assert_eq!(l.kernel, CudaKernel::StoreCache);
    assert_eq!((l.grid.blocks, l.grid.threads), (2, 256));
    assert_eq!(
        l.args,
        vec![
            CudaArg::Buffer(LayerBuf::V),
            CudaArg::VCache,
            CudaArg::Number(2),
            CudaArg::Number(512),
        ]
    );
    let l = cuda_launch_op(
        LayerOp::RmsNorm {
            from: LayerBuf::X,
            weight: LayerWeight::AttnNorm,
            to: LayerBuf::AttnIn,
            n: 512,
        },
        3,
        0,
    );
    assert_eq!((l.grid.blocks, l.grid.threads), (1, 1));
    assert_eq!(l.args[2], CudaArg::Number(3));
    assert_eq!(l.args[5], CudaArg::NormEpsilon(1e-6f32.to_bits()));
    assert_eq!(ROPE_BASE, 10_000.0f32.to_bits());
    let l = cuda_launch_embedding(7, 1, 300);
    assert_eq!(l.grid.blocks, 2);
    assert_eq!(l.args[2], CudaArg::Number(7));
    assert_eq!(kernel_name(CudaKernel::Rope.index()), "ds4_rope");
    assert_eq!(kernel_name(CudaKernel::Attention.index()), "ds4_attention_decode");
}

#[test]
fn halves_widen_to_the_same_number() {
    for h in 0..=u16::MAX {
        let wide = f32::from_bits(half_to_single(h));
        let sign = if h & 0x8000 != 0 { -1.0f64 } else { 1.0 };
        let exponent = i32::from((h >> 10) & 31);
        let fraction = f64::from(h & 1023);
        if exponent == 31 {
            assert_eq!(wide.is_nan(), fraction != 0.0);
            assert_eq!(wide.is_infinite(), fraction == 0.0);
        } else if exponent == 0 {
            assert_eq!(f64::from(wide), sign * fraction * 2f64.powi(-24));
        } else {
            let expected = sign * (1.0 + fraction / 1024.0) * 2f64.powi(exponent - 15);
            assert_eq!(f64::from(wide), expected);
        }
        assert_eq!(wide.is_sign_negative(), h & 0x8000 != 0);
    }
    assert_eq!(half_to_single(0x3c00), 1.0f32.to_bits());
    assert_eq!(half_to_single(0x8000), (-0.0f32).to_bits());
    assert_eq!(half_to_single(1), 2f32.powi(-24).to_bits());
}
