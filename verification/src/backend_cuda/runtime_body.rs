//! Decode kernels of the CUDA runtime. The tables that they read stand before them in the program.

use vstd::prelude::*;

verus! {

/// The kernels.
pub const RUNTIME_KERNEL_BODY: &'static str = r#"
#define DS4_DTYPE_F32 0
#define DS4_DTYPE_F16 1
#define DS4_DTYPE_Q8_0 2
#define DS4_DTYPE_Q4_K 3
#define DS4_DTYPE_Q3_K 4
#define DS4_DTYPE_Q2_K 5
#define DS4_DTYPE_IQ2_XXS 6

__device__ unsigned short ds4_u16(const unsigned char * p) {
    return ((unsigned short)p[0]) | ((unsigned short)p[1] << 8);
}

__device__ unsigned int ds4_u32(const unsigned char * p) {
    return ((unsigned int)p[0]) | ((unsigned int)p[1] << 8) |
           ((unsigned int)p[2] << 16) | ((unsigned int)p[3] << 24);
}

__device__ float ds4_f32(const unsigned char * p) {
    return __uint_as_float(ds4_u32(p));
}

__device__ float ds4_f16(unsigned short h) {
    unsigned int sign = ((unsigned int)h & 0x8000U) << 16;
    int exp = (int)((h >> 10) & 0x1fU);
    unsigned int mant = (unsigned int)h & 0x03ffU;
    if (exp == 0) {
        if (mant == 0) {
            return __uint_as_float(sign);
        }
        while ((mant & 0x0400U) == 0) {
            mant <<= 1;
            exp -= 1;
        }
        exp += 1;
        mant &= ~0x0400U;
    } else if (exp == 31) {
        return __uint_as_float(sign | 0x7f800000U | (mant << 13));
    }
    exp = exp + (127 - 15);
    return __uint_as_float(sign | ((unsigned int)exp << 23) | (mant << 13));
}

__device__ void ds4_scale_min_k4(int j, const unsigned char * q, int * d, int * m) {
    if (j < 4) {
        *d = q[j] & 63;
        *m = q[j + 4] & 63;
    } else {
        *d = (q[j + 4] & 0x0f) | ((q[j - 4] >> 6) << 4);
        *m = (q[j + 4] >> 4) | ((q[j] >> 6) << 4);
    }
}

__device__ int ds4_q3_scale(const unsigned char * scales, int j) {
    int low = (j < 8) ? (scales[j] & 0x0f) : ((scales[j - 8] >> 4) & 0x0f);
    int high = (scales[8 + (j & 3)] >> (2 * (j >> 2))) & 3;
    return (low | (high << 4)) - 32;
}

__device__ float ds4_load_q8_0(const unsigned char * data, unsigned long long index) {
    unsigned long long block = index >> 5;
    int r = (int)(index & 31ULL);
    const unsigned char * b = data + block * 34ULL;
    float d = ds4_f16(ds4_u16(b));
    signed char q = (signed char)b[2 + r];
    return d * (float)q;
}

__device__ float ds4_load_q4_k(const unsigned char * data, unsigned long long index) {
    unsigned long long block = index >> 8;
    int r = (int)(index & 255ULL);
    const unsigned char * b = data + block * 144ULL;
    float d = ds4_f16(ds4_u16(b));
    float dmin = ds4_f16(ds4_u16(b + 2));
    const unsigned char * scales = b + 4;
    const unsigned char * qs = b + 16;
    int group = r >> 6;
    int local = r & 63;
    int sc = 0;
    int mn = 0;
    ds4_scale_min_k4(group * 2 + (local >= 32), scales, &sc, &mn);
    unsigned char packed = qs[group * 32 + (local & 31)];
    int q = (local < 32) ? (packed & 0x0f) : (packed >> 4);
    return d * (float)sc * (float)q - dmin * (float)mn;
}

__device__ float ds4_load_q3_k(const unsigned char * data, unsigned long long index) {
    unsigned long long block = index >> 8;
    int r = (int)(index & 255ULL);
    const unsigned char * b = data + block * 110ULL;
    const unsigned char * hmask = b;
    const unsigned char * qs = b + 32;
    const unsigned char * scales = b + 96;
    float d = ds4_f16(ds4_u16(b + 108));
    int half = r >> 7;
    int rem = r & 127;
    int j = rem >> 5;
    int within = rem & 31;
    int scale_idx = half * 8 + j * 2 + (within >= 16);
    int q_off = half * 32 + within;
    int shift = j * 2;
    int q = (qs[q_off] >> shift) & 3;
    int mask = 1 << (half * 4 + j);
    int bias = (hmask[within] & mask) ? 0 : 4;
    return d * (float)ds4_q3_scale(scales, scale_idx) * (float)(q - bias);
}

__device__ float ds4_load_q2_k(const unsigned char * data, unsigned long long index) {
    unsigned long long block = index >> 8;
    int r = (int)(index & 255ULL);
    const unsigned char * b = data + block * 84ULL;
    const unsigned char * scales = b;
    const unsigned char * qs = b + 16;
    float d = ds4_f16(ds4_u16(b + 80));
    float dmin = ds4_f16(ds4_u16(b + 82));
    int half = r >> 7;
    int rem = r & 127;
    int pair = rem >> 5;
    int within = rem & 31;
    int scale_idx = half * 8 + pair * 2 + (within >= 16);
    int shift = pair * 2;
    int q = (qs[half * 32 + within] >> shift) & 3;
    int sc = scales[scale_idx];
    return d * (float)(sc & 0x0f) * (float)q - dmin * (float)(sc >> 4);
}

__device__ float ds4_load_iq2_xxs(const unsigned char * data, unsigned long long index) {
    unsigned long long block = index >> 8;
    int r = (int)(index & 255ULL);
    const unsigned char * b = data + block * 66ULL;
    float d = ds4_f16(ds4_u16(b));
    const unsigned char * q = b + 2;
    int ib32 = r >> 5;
    int sub = (r >> 3) & 3;
    int lane = r & 7;
    unsigned int q0 = (unsigned int)ds4_u16(q + (ib32 * 4 + 0) * 2);
    unsigned int q1 = (unsigned int)ds4_u16(q + (ib32 * 4 + 1) * 2);
    unsigned int q2 = (unsigned int)ds4_u16(q + (ib32 * 4 + 2) * 2);
    unsigned int q3 = (unsigned int)ds4_u16(q + (ib32 * 4 + 3) * 2);
    unsigned int aux0 = q0 | (q1 << 16);
    unsigned int aux1 = q2 | (q3 << 16);
    unsigned int grid_idx = (sub == 0) ? (aux0 & 0xffU) :
                            (sub == 1) ? ((aux0 >> 8) & 0xffU) :
                            (sub == 2) ? ((aux0 >> 16) & 0xffU) :
                                         ((aux0 >> 24) & 0xffU);
    unsigned int signs = (unsigned int)DS4_KSIGNS[(aux1 >> (7 * sub)) & 0x7fU];
    unsigned int grid_byte = (unsigned int)((DS4_IQ2_GRID[grid_idx] >> (8 * lane)) & 0xffULL);
    float sign = (signs & (1U << lane)) ? -1.0f : 1.0f;
    float db = d * (0.5f + (float)(aux1 >> 28)) * 0.25f;
    return db * (float)grid_byte * sign;
}

__device__ float ds4_load_weight(const unsigned char * data, int dtype, unsigned long long index) {
    if (dtype == DS4_DTYPE_F32) {
        return ds4_f32(data + index * 4ULL);
    }
    if (dtype == DS4_DTYPE_F16) {
        return ds4_f16(ds4_u16(data + index * 2ULL));
    }
    if (dtype == DS4_DTYPE_Q8_0) {
        return ds4_load_q8_0(data, index);
    }
    if (dtype == DS4_DTYPE_Q4_K) {
        return ds4_load_q4_k(data, index);
    }
    if (dtype == DS4_DTYPE_Q3_K) {
        return ds4_load_q3_k(data, index);
    }
    if (dtype == DS4_DTYPE_Q2_K) {
        return ds4_load_q2_k(data, index);
    }
    if (dtype == DS4_DTYPE_IQ2_XXS) {
        return ds4_load_iq2_xxs(data, index);
    }
    return 0.0f;
}

extern "C" __global__ void ds4_embedding(
    const unsigned char * weights,
    int dtype,
    int token,
    int hidden,
    float * out) {
    int i = blockIdx.x * blockDim.x + threadIdx.x;
    if (i >= hidden) return;
    out[i] = ds4_load_weight(weights, dtype, (unsigned long long)token * (unsigned long long)hidden + (unsigned long long)i);
}

extern "C" __global__ void ds4_rmsnorm(
    const float * x,
    const unsigned char * weight,
    int weight_dtype,
    float * out,
    int n,
    float eps) {
    if (blockIdx.x != 0 || threadIdx.x != 0) return;
    float sum = 0.0f;
    for (int i = 0; i < n; ++i) {
        sum += x[i] * x[i];
    }
    float scale = rsqrtf(sum / (float)n + eps);
    for (int i = 0; i < n; ++i) {
        out[i] = x[i] * scale * ds4_load_weight(weight, weight_dtype, (unsigned long long)i);
    }
}

extern "C" __global__ void ds4_matvec(
    const float * input,
    const unsigned char * weights,
    int weight_dtype,
    float * out,
    int input_dim,
    int out_dim) {
    int j = blockIdx.x * blockDim.x + threadIdx.x;
    if (j >= out_dim) return;
    float sum = 0.0f;
    for (int i = 0; i < input_dim; ++i) {
        unsigned long long index = (unsigned long long)i * (unsigned long long)out_dim + (unsigned long long)j;
        sum += input[i] * ds4_load_weight(weights, weight_dtype, index);
    }
    out[j] = sum;
}

extern "C" __global__ void ds4_add(float * dst, const float * src, int n) {
    int i = blockIdx.x * blockDim.x + threadIdx.x;
    if (i < n) {
        dst[i] += src[i];
    }
}

extern "C" __global__ void ds4_silu_product(float * gate, const float * up, int n) {
    int i = blockIdx.x * blockDim.x + threadIdx.x;
    if (i < n) {
        float g = gate[i];
        gate[i] = (g / (1.0f + expf(-g))) * up[i];
    }
}

extern "C" __global__ void ds4_rope(
    float * x,
    int pos,
    int n_heads,
    int head_dim,
    float freq_base) {
    int pair = blockIdx.x * blockDim.x + threadIdx.x;
    int half = head_dim >> 1;
    int total = n_heads * half;
    if (pair >= total) return;
    int head = pair / half;
    int i = pair - head * half;
    int off = head * head_dim + i * 2;
    float exponent = 2.0f * (float)i / (float)head_dim;
    float freq = expf(exponent * logf(freq_base));
    float theta = (float)pos / freq;
    float s = sinf(theta);
    float c = cosf(theta);
    float a = x[off];
    float b = x[off + 1];
    x[off] = a * c - b * s;
    x[off + 1] = a * s + b * c;
}

extern "C" __global__ void ds4_store_cache(
    const float * src,
    float * cache,
    int cache_pos,
    int hidden) {
    int i = blockIdx.x * blockDim.x + threadIdx.x;
    if (i < hidden) {
        cache[cache_pos * hidden + i] = src[i];
    }
}

extern "C" __global__ void ds4_attention_decode(
    const float * q,
    const float * k_cache,
    const float * v_cache,
    float * out,
    int seq_len,
    int n_heads,
    int head_dim) {
    int h = blockIdx.x * blockDim.x + threadIdx.x;
    if (h >= n_heads) return;
    float scale = rsqrtf((float)head_dim);
    float max_score = -3.402823466e+38f;
    for (int t = 0; t < seq_len; ++t) {
        float score = 0.0f;
        int base = t * n_heads * head_dim + h * head_dim;
        for (int d = 0; d < head_dim; ++d) {
            score += q[h * head_dim + d] * k_cache[base + d];
        }
        score *= scale;
        if (score > max_score) max_score = score;
    }
    float denom = 0.0f;
    for (int t = 0; t < seq_len; ++t) {
        float score = 0.0f;
        int base = t * n_heads * head_dim + h * head_dim;
        for (int d = 0; d < head_dim; ++d) {
            score += q[h * head_dim + d] * k_cache[base + d];
        }
        denom += expf(score * scale - max_score);
    }
    for (int d = 0; d < head_dim; ++d) {
        float acc = 0.0f;
        for (int t = 0; t < seq_len; ++t) {
            float score = 0.0f;
            int base = t * n_heads * head_dim + h * head_dim;
            for (int k = 0; k < head_dim; ++k) {
                score += q[h * head_dim + k] * k_cache[base + k];
            }
            float w = expf(score * scale - max_score) / denom;
            acc += w * v_cache[base + d];
        }
        out[h * head_dim + d] = acc;
    }
}
"#;

} // verus!
