use recursion::claim_hash::{ChunkSource, VmPublicClaimHashPreprocessed, HASH_COLUMN_COUNT, RATE};
use recursion::domain::{padded_log_size, PaddedSizeError, MAX_LOG_SIZE};
use recursion::public_claim::VmPublicClaimShape;

fn shape() -> VmPublicClaimShape {
    VmPublicClaimShape::new(3, 3).unwrap()
}

#[test]
fn schedule_absorbs_each_claim_word_once_in_order() {
    let pre = VmPublicClaimHashPreprocessed::new(shape()).unwrap();
    // 289 claim words and the terminating word fill 37 chunks of eight.
    assert_eq!(pre.step_count(), 37);
    assert_eq!(pre.rows().len(), 37);
    assert_eq!(pre.log_size(), 6);
    assert_eq!(pre.shape(), shape());
    let mut next_word: u32 = 0;
    let mut terminators = 0;
    for (step, row) in pre.rows().iter().enumerate() {
        assert_eq!(row.step as usize, step);
        assert_eq!(row.first, step == 0);
        assert_eq!(row.last, step == 36);
        assert_eq!(row.chunks.len(), RATE);
        for source in &row.chunks {
            match *source {
                ChunkSource::ClaimWord(index) => {
                    assert_eq!(terminators, 0);
                    assert_eq!(index, next_word);
                    next_word += 1;
                }
                ChunkSource::Constant(1) => terminators += 1,
                ChunkSource::Constant(value) => {
                    assert_eq!(value, 0);
                    assert_eq!(terminators, 1);
                }
            }
        }
    }
    assert_eq!(next_word, 289);
    assert_eq!(terminators, 1);
}

#[test]
fn last_row_ends_with_the_terminator_and_zero_padding() {
    let pre = VmPublicClaimHashPreprocessed::new(shape()).unwrap();
    let last = &pre.rows()[36];
    assert_eq!(last.chunks[0], ChunkSource::ClaimWord(288));
    assert_eq!(last.chunks[1], ChunkSource::Constant(1));
    assert_eq!(last.chunks[7], ChunkSource::Constant(0));
}

#[test]
fn empty_shape_schedule_still_fills_the_minimum_domain() {
    let shape = VmPublicClaimShape::new(0, 0).unwrap();
    let pre = VmPublicClaimHashPreprocessed::new(shape).unwrap();
    // 259 words and a terminator: 260 words, so 33 chunks.
    assert_eq!(pre.step_count(), 33);
    assert_eq!(pre.log_size(), 6);
    assert_eq!(pre.rows()[32].chunks[2], ChunkSource::ClaimWord(258));
    assert_eq!(pre.rows()[32].chunks[3], ChunkSource::Constant(1));
}

#[test]
fn padded_log_size_pads_to_a_power_of_two() {
    assert_eq!(padded_log_size(0, MAX_LOG_SIZE), Ok(4));
    assert_eq!(padded_log_size(16, MAX_LOG_SIZE), Ok(4));
    assert_eq!(padded_log_size(17, MAX_LOG_SIZE), Ok(5));
    assert_eq!(padded_log_size(1 << 20, MAX_LOG_SIZE), Ok(20));
    assert_eq!(
        padded_log_size((1 << 20) + 1, 20),
        Err(PaddedSizeError::LogSizeOutOfRange { log_size: 21 })
    );
    assert_eq!(
        padded_log_size(usize::MAX, 64),
        Err(PaddedSizeError::RowCountOverflow)
    );
}

#[test]
fn column_values_lay_out_each_absorbed_word() {
    let pre = VmPublicClaimHashPreprocessed::new(shape()).unwrap();
    let columns = pre.column_values();
    assert_eq!(columns.len(), HASH_COLUMN_COUNT);
    assert!(columns.iter().all(|column| column.len() == 64));
    assert_eq!(columns[0][0], 1);
    assert_eq!(columns[2][0], 1);
    assert_eq!(columns[3][0], 0);
    assert_eq!(columns[1][36], 36);
    assert_eq!(columns[3][36], 1);
    // The last chunk absorbs claim word 288, then the terminating one.
    assert_eq!((columns[4][36], columns[5][36], columns[6][36]), (1, 288, 0));
    assert_eq!((columns[7][36], columns[8][36], columns[9][36]), (0, 0, 1));
    assert_eq!((columns[25][36], columns[26][36], columns[27][36]), (0, 0, 0));
    assert_eq!((columns[4][1], columns[5][1]), (1, 8));
    assert!(columns.iter().all(|column| column[37..].iter().all(|value| *value == 0)));
}
