use nixcp::uploader::{
    large_artifact, order_tokens, part_token, plan_upload, split_chunks, temp_upload_key,
    PartToken, UploadPlan, CHUNK_SIZE, MULTIPART_THRESHOLD,
};

fn payload(len: usize) -> Vec<u8> {
    let mut state: u64 = 0x13198A2E03707344;
    let mut out = Vec::with_capacity(len);
    for _ in 0..len {
        state = state.wrapping_mul(6364136223846793005).wrapping_add(1442695040888963407);
        out.push((state >> 33) as u8);
    }
    out
}

#[test]
fn size_threshold_picks_the_upload_shape() {
    // just below the threshold: one atomic put
    assert_eq!(plan_upload(MULTIPART_THRESHOLD - 1), UploadPlan::SinglePut);
    // at the threshold: multipart
    assert_eq!(plan_upload(MULTIPART_THRESHOLD), UploadPlan::Multipart { parts: 1 });
    // one byte above one part's worth: at least two parts
    assert_eq!(plan_upload(MULTIPART_THRESHOLD + 1), UploadPlan::Multipart { parts: 2 });
    assert_eq!(plan_upload(0), UploadPlan::SinglePut);
    assert_eq!(
        plan_upload(3 * CHUNK_SIZE as u64 + 5),
        UploadPlan::Multipart { parts: 4 }
    );
}

#[test]
fn chunks_cover_the_payload_exactly() {
    let data = payload(CHUNK_SIZE + 1);
    let chunks = split_chunks(&data);
    assert_eq!(chunks.len(), 2);
    assert_eq!(chunks[0].len(), CHUNK_SIZE);
    assert_eq!(chunks[1].len(), 1);
    let mut joined = Vec::new();
    for c in &chunks {
        joined.extend_from_slice(c);
    }
    assert_eq!(joined, data);
    // an exact multiple has only full chunks
    let data = payload(2 * CHUNK_SIZE);
    let chunks = split_chunks(&data);
    assert_eq!(chunks.len(), 2);
    assert!(chunks.iter().all(|c| c.len() == CHUNK_SIZE));
    // empty payload, no chunks
    assert_eq!(split_chunks(&Vec::new()).len(), 0);
}

fn tokens_for(chunks: &[Vec<u8>], order: &[usize]) -> Vec<PartToken> {
    order
        .iter()
        .map(|&i| part_token((i + 1) as u64, format!("etag-{}", i + 1), &chunks[i]))
        .collect()
}

#[test]
fn parts_reassemble_in_number_order_whatever_the_completion_order() {
    let data = payload(2 * CHUNK_SIZE + 77);
    let chunks = split_chunks(&data);
    assert_eq!(chunks.len(), 3);
    // completion order 3, 1, 2
    let tokens = tokens_for(&chunks, &[2, 0, 1]);
    let ordered = order_tokens(&tokens, 3).unwrap();
    let mut joined = Vec::new();
    for (i, t) in ordered.iter().enumerate() {
        assert_eq!(t.number as usize, i + 1);
        assert_eq!(t.etag, format!("etag-{}", i + 1));
        joined.extend_from_slice(&chunks[i]);
    }
    assert_eq!(joined, data);
}

#[test]
fn incomplete_part_sets_abort_the_session() {
    let data = payload(2 * CHUNK_SIZE + 77);
    let chunks = split_chunks(&data);
    // a missing part
    assert!(order_tokens(&tokens_for(&chunks, &[0, 2]), 3).is_err());
    // a repeated part
    assert!(order_tokens(&tokens_for(&chunks, &[0, 1, 1]), 3).is_err());
    // a part numbered outside the session
    let mut tokens = tokens_for(&chunks, &[0, 1]);
    tokens.push(part_token(4, "etag-4".to_string(), &chunks[2]));
    assert!(order_tokens(&tokens, 3).is_err());
    // the empty session is complete
    assert!(order_tokens(&Vec::new(), 0).is_ok());
}

#[test]
fn only_large_directory_trees_take_the_big_permit() {
    assert!(large_artifact(true, MULTIPART_THRESHOLD + 1));
    assert!(!large_artifact(true, MULTIPART_THRESHOLD));
    assert!(!large_artifact(false, MULTIPART_THRESHOLD + 1));
}

#[test]
fn staging_keys_are_plain_names() {
    let k = temp_upload_key();
    assert_eq!(k.chars().count(), 26);
    assert!(!k.starts_with("nar/"));
}
