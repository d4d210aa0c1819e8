use btrs::pieces::{PieceError, PieceRequest};
use btrs::work::{BlockResponse, BlockStatus, PieceWork, BLOCK_SIZE};

#[test]
fn piece_assembly() {
    let mut work = PieceWork::from_request(&PieceRequest { piece_index: 7, length_bytes: 40_000 });
    let lengths: Vec<u32> = work.blocks.iter().map(|b| b.length).collect();
    assert_eq!(lengths, vec![16384, 16384, 7232]);
    let offsets: Vec<u32> = work.blocks.iter().map(|b| b.offset).collect();
    assert_eq!(offsets, vec![0, 16384, 32768]);
    assert!(work.blocks.iter().all(|b| b.status == BlockStatus::Empty && b.data.is_empty()));
    assert_eq!(work.block_size, BLOCK_SIZE);

    assert_eq!(work.request_blocks().len(), 3);
    // Blocks arrive out of order.
    assert!(work.receive_block(BlockResponse { index: 7, begin: 32768, block: vec![3; 7232] }));
    assert!(!work.is_complete());
    assert!(work.receive_block(BlockResponse { index: 7, begin: 0, block: vec![1; 16384] }));
    assert!(work.receive_block(BlockResponse { index: 7, begin: 16384, block: vec![2; 16384] }));
    assert!(work.is_complete());

    let resp = work.to_piece_response();
    assert_eq!(resp.piece_index, 7);
    let bytes = resp.result.unwrap();
    assert_eq!(bytes.len(), 40_000);
    assert_eq!(bytes[0], 1);
    assert_eq!(bytes[16384], 2);
    assert_eq!(bytes[39_999], 3);
}

#[test]
fn block_lengths_sum_to_piece_length() {
    for len in [0usize, 1, 16383, 16384, 16385, 32768, 100_000] {
        let work = PieceWork::from_request(&PieceRequest { piece_index: 0, length_bytes: len });
        let total: usize = work.blocks.iter().map(|b| b.length as usize).sum();
        assert_eq!(total, len);
        assert!(work.blocks.iter().all(|b| b.length as usize <= BLOCK_SIZE));
        assert_eq!(work.blocks.len(), len.div_ceil(BLOCK_SIZE));
    }
}

#[test]
fn unrequested_block_is_discarded() {
    let mut work = PieceWork::from_request(&PieceRequest { piece_index: 1, length_bytes: 20_000 });
    // Not requested yet.
    assert!(!work.receive_block(BlockResponse { index: 1, begin: 0, block: vec![0; 16384] }));
    work.request_blocks();
    // An offset that starts no block.
    assert!(!work.receive_block(BlockResponse { index: 1, begin: 5, block: vec![0; 4] }));
    assert!(work.blocks.iter().all(|b| b.status == BlockStatus::InProgress));
    // Blocks are matched by offset alone.
    assert!(work.receive_block(BlockResponse { index: 2, begin: 16384, block: vec![0; 3616] }));
    assert_eq!(work.blocks[1].status, BlockStatus::Full);
    assert_eq!(work.blocks[1].data.len(), 3616);
    assert_eq!(work.blocks[0].status, BlockStatus::InProgress);
    // A block that is already in is not taken twice.
    assert!(!work.receive_block(BlockResponse { index: 1, begin: 16384, block: vec![1; 3616] }));
    assert_eq!(work.blocks[1].data[0], 0);
}

#[test]
fn short_data_is_invalid() {
    let mut work = PieceWork::from_request(&PieceRequest { piece_index: 4, length_bytes: 10 });
    work.request_blocks();
    work.receive_block(BlockResponse { index: 4, begin: 0, block: vec![9; 6] });
    assert!(work.is_complete());
    let resp = work.to_piece_response();
    assert_eq!(resp.piece_index, 4);
    assert!(matches!(resp.result, Err(PieceError::InvalidData(_))));
}
