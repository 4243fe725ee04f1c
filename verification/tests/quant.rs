use gguf_recast::quant::{
    assert_16_aligned_chunks, pack_q4_0, pack_q4_0_ar16, transpose_u8, unpack_autogptq_int4,
    v_reorder_perm, ChunkError,
};

#[test]
fn unpack_matches_autogptq_layout() {
    // One packed word per column: codes 0..8 across input rows.
    // word = sum(k << 4k) so code for row k is k.
    let mut w = 0u32;
    for k in 0..8u32 {
        w |= k << (4 * k);
    }
    let codes = unpack_autogptq_int4(&[w, w], 1, 2);
    assert_eq!(codes.len(), 16);
    for r in 0..8 {
        assert_eq!(codes[r * 2], r as u8);
        assert_eq!(codes[r * 2 + 1], r as u8);
    }
}

#[test]
fn q4_0_split_halves_nibble_layout() {
    // 32 codes 0,1,2,...,31 (mod 16) for one out row; scale bits 0x1234.
    let codes: Vec<u8> = (0..32u8).map(|x| x & 0xf).collect();
    let blob = pack_q4_0(&codes, &[0x1234], 1, 32, 32);
    assert_eq!(blob.len(), 18);
    assert_eq!(&blob[0..2], &0x1234u16.to_le_bytes());
    // qs[j] = code[j] | code[j+16] << 4
    for j in 0..16 {
        assert_eq!(blob[2 + j], codes[j] | (codes[j + 16] << 4));
    }
}

#[test]
fn ar16_interleaved_nibble_layout() {
    let codes: Vec<u8> = (0..16u8).collect();
    let blob = pack_q4_0_ar16(&codes, &[0xbeef], 1, 16);
    assert_eq!(blob.len(), 10);
    assert_eq!(&blob[0..2], &0xbeefu16.to_le_bytes());
    // byte j = code[2j] | code[2j+1] << 4  (NOT the Q4_0 split layout)
    for j in 0..8 {
        assert_eq!(blob[2 + j], codes[2 * j] | (codes[2 * j + 1] << 4));
    }
}

#[test]
fn ar16_scale_replication_and_block_perm_identity() {
    // 2 out rows, 32 inputs = 2 AR16 blocks, group_size 32 -> 2 blocks per
    // group would be wrong; use group replication done by the caller.
    // Here: distinct scale per block, verify placement.
    let codes = vec![0u8; 2 * 32];
    let scales = vec![1u16, 2, 3, 4]; // [out=2][blocks=2]
    let blob = pack_q4_0_ar16(&codes, &scales, 2, 32);
    assert_eq!(blob.len(), 40);
    assert_eq!(&blob[0..2], &1u16.to_le_bytes());
    assert_eq!(&blob[10..12], &2u16.to_le_bytes());
    assert_eq!(&blob[20..22], &3u16.to_le_bytes());
    assert_eq!(&blob[30..32], &4u16.to_le_bytes());
}

#[test]
fn v_perm_matches_numpy_transpose_semantics() {
    // numpy: arange(n).reshape(k, vpk, d).transpose(1, 0, 2).reshape(n)
    // k=2, vpk=3, d=2 -> n=12
    let perm = v_reorder_perm(2, 6, 2);
    let expect = vec![0, 1, 6, 7, 2, 3, 8, 9, 4, 5, 10, 11];
    assert_eq!(perm, expect);
}

#[test]
fn v_col_perm_16_aligned_for_qwen36_topology() {
    // num_k=16, num_v=48, head_v_dim=128 (Qwen3.6-27B GDN topology)
    let perm = v_reorder_perm(16, 48, 128);
    assert_eq!(perm.len(), 6144);
    assert_eq!(assert_16_aligned_chunks(&perm), Ok(()));
}

#[test]
fn transpose_u8_blocked() {
    let rows = 70;
    let cols = 130;
    let src: Vec<u8> = (0..rows * cols).map(|i| (i % 251) as u8).collect();
    let dst = transpose_u8(&src, rows, cols);
    for r in 0..rows {
        for c in 0..cols {
            assert_eq!(dst[c * rows + r], src[r * cols + c]);
        }
    }
}

#[test]
fn packing_keeps_every_code() {
    let codes: Vec<u8> = (0..64u32).map(|x| ((x * 7 + 3) % 16) as u8).collect();
    let blob = pack_q4_0(&codes, &[0x1111, 0x2222], 2, 32, 32);
    for o in 0..2 {
        for i in 0..32 {
            let b = blob[o * 18 + 2 + i % 16];
            let code = if i < 16 { b & 0xf } else { b >> 4 };
            assert_eq!(code, codes[o * 32 + i]);
        }
    }
    assert_eq!(&blob[18..20], &[0x22, 0x22]);
    let blob = pack_q4_0_ar16(&codes, &[1, 2, 3, 4], 2, 32);
    for o in 0..2 {
        for i in 0..32 {
            let b = blob[(o * 2 + i / 16) * 10 + 2 + i % 16 / 2];
            let code = if i % 2 == 0 { b & 0xf } else { b >> 4 };
            assert_eq!(code, codes[o * 32 + i]);
        }
    }
}

#[test]
fn q4_0_scale_is_replicated_over_its_group() {
    let codes = vec![5u8; 2 * 128];
    // [groups = 2][out = 2], two blocks to a group.
    let blob = pack_q4_0(&codes, &[10, 20, 30, 40], 2, 128, 64);
    let scale = |k: usize| blob[k * 18] as u16 | (blob[k * 18 + 1] as u16) << 8;
    let all: Vec<u16> = (0..8).map(scale).collect();
    assert_eq!(all, vec![10, 10, 30, 30, 20, 20, 40, 40]);
}

#[test]
fn transposing_twice() {
    let src: Vec<u8> = (0..70u32 * 3).map(|i| (i % 199) as u8).collect();
    assert_eq!(transpose_u8(&transpose_u8(&src, 70, 3), 3, 70), src);
    assert_eq!(transpose_u8(&[], 0, 7), Vec::<u8>::new());
}

#[test]
fn reorder_is_a_permutation() {
    let perm = v_reorder_perm(4, 12, 3);
    let mut sorted = perm.clone();
    sorted.sort();
    assert_eq!(sorted, (0..36).collect::<Vec<usize>>());
    assert_ne!(perm, sorted);
}

#[test]
fn chunk_errors() {
    let fine: Vec<usize> = (16..32).chain(0..16).collect();
    assert_eq!(assert_16_aligned_chunks(&fine), Ok(()));
    assert_eq!(assert_16_aligned_chunks(&fine[..17]), Err(ChunkError::Length));
    let shifted: Vec<usize> = (1..17).collect();
    assert_eq!(assert_16_aligned_chunks(&shifted), Err(ChunkError::Start));
    let mut swapped = fine.clone();
    swapped.swap(3, 4);
    assert_eq!(assert_16_aligned_chunks(&swapped), Err(ChunkError::Order));
}
