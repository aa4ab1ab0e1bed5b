use sndcore::blocks::block::{ArcBlock, Block, SilentBlock};
use sndcore::blocks::mips::Pyramid;
use sndcore::blocks::sequence::BlockSequence;

#[test]
fn arc_block_test_creation() {
    let samples: Vec<i64> = (0..1000).collect();
    let block = ArcBlock::from_samples(samples);

    assert_eq!(block.len(), 1000, "creating an arc block: the length should be correct");
    assert_eq!(block.summary(), (0, 999), "creating arc block: the summary should be correct");

    let sub1 = block.rng(10, 50);
    assert_eq!(sub1.len(), 40, "cutting arc block: sub block length");
    assert_eq!(sub1.summary(), (10, 49), "cutting arc block: sub block summary");
    assert_eq!(sub1.get_sample(4), Some(14), "cutting arc block: sub block sample");

    let sub2 = sub1.rng(10, 20);
    assert_eq!(sub2.len(), 10, "cutting arc block: sub block length");
    assert_eq!(sub2.summary(), (20, 29), "cutting arc block: sub block summary");
    assert_eq!(sub2.get_sample(4), Some(24), "cutting arc block: sub block sample");
    assert_eq!(sub2.get_sample(11), None, "cutting arc block: sub block sample out of range");
}

#[test]
fn silent_block_test_creation() {
    let block = SilentBlock::new(100);
    assert_eq!(block.len(), 100, "silent block: length should be correct");
    assert_eq!(block.summary(), (0, 0), "silent block: the summary should be silent");

    let sub1 = block.rng(10, 50);
    assert_eq!(sub1.len(), 40, "cutting silent block: sub block length");
    assert_eq!(sub1.summary(), (0, 0), "cutting silent block: sub block summary");
    assert_eq!(sub1.get_sample(4), Some(0), "cutting silent block: sub block sample");

    let sub2 = sub1.rng(10, 20);
    assert_eq!(sub2.len(), 10, "cutting silent block: sub block length");
    assert_eq!(sub2.summary(), (0, 0), "cutting silent block: sub block summary");
    assert_eq!(sub2.get_sample(4), Some(0), "cutting silent block: sub block sample");
}

#[test]
fn mips_test_creation() {
    let samples: Vec<i64> = (0..1000).collect();
    let pyr = Pyramid::build(&samples);
    assert_eq!(pyr.levels_len(), 9, "the pyramid should have 9 levels");

    assert_eq!(pyr.peaks(0, 20, &samples), (0, 19));
    assert_eq!(pyr.peaks(100, 200, &samples), (100, 199));
    assert_eq!(pyr.peaks(512, 1000, &samples), (512, 999));
    assert_eq!(pyr.peaks(257, 600, &samples), (257, 599));
    assert_eq!(pyr.peaks(0, 1000, &samples), (0, 999));
}

#[test]
fn peaks_match_naive_scan() {
    let samples: Vec<i64> = (0..1000).map(|i| (i * 37) % 101 - 50).collect();
    let pyr = Pyramid::build(&samples);
    for &(s, e) in &[(0usize, 1000usize), (257, 600), (1, 2), (999, 1000), (3, 3), (12, 997)] {
        let mut mn = i64::MAX;
        let mut mx = i64::MIN;
        for i in s..e {
            mn = mn.min(samples[i]);
            mx = mx.max(samples[i]);
        }
        assert_eq!(pyr.peaks(s, e, &samples), (mn, mx), "range ({}, {})", s, e);
    }
}

#[test]
fn block_sub_range_composes() {
    let b = Block::data((0..100).collect());
    let once = b.rng(10, 50).rng(10, 20);
    let composed = b.rng(20, 30);
    assert_eq!(once.samples(), composed.samples());
    assert_eq!(once.samples(), (20..30).collect::<Vec<i64>>());
}

#[test]
fn silence_reads_are_zero() {
    let b = Block::silence(7);
    for i in 0..7 {
        assert_eq!(b.get_sample(i), Some(0));
    }
    assert_eq!(b.get_sample(7), None);
}

fn seq_of(v: Vec<i64>) -> BlockSequence {
    BlockSequence::from_block(Block::data(v))
}

#[test]
fn sequence_lengths_track_a_flat_buffer() {
    // A chain of inserts, deletes and replaces, mirrored on a plain vector.
    let mut flat: Vec<i64> = (0..50).collect();
    let mut seq = seq_of(flat.clone());

    let ins: Vec<i64> = vec![100, 101, 102];
    seq = seq.insert(10, &seq_of(ins.clone()));
    let tail = flat.split_off(10);
    flat.extend(ins);
    flat.extend(tail);
    assert_eq!(seq.len(), flat.len());
    assert_eq!(seq.samples(0, seq.len()), flat);

    seq = seq.delete(5, 20);
    let tail = flat.split_off(20);
    flat.truncate(5);
    flat.extend(tail);
    assert_eq!(seq.len(), flat.len());
    assert_eq!(seq.samples(0, seq.len()), flat);

    let rep: Vec<i64> = vec![7, 8];
    seq = seq.replace(3, 30, &seq_of(rep.clone()));
    let tail = flat.split_off(30);
    flat.truncate(3);
    flat.extend(rep);
    flat.extend(tail);
    assert_eq!(seq.len(), flat.len());
    assert_eq!(seq.samples(0, seq.len()), flat);

    // Inserting past the end pads with silence.
    seq = seq.insert(seq.len() + 4, &seq_of(vec![9]));
    flat.extend([0, 0, 0, 0, 9]);
    assert_eq!(seq.len(), flat.len());
    assert_eq!(seq.samples(0, seq.len()), flat);
}

#[test]
fn delete_insert_round_trip() {
    let original: Vec<i64> = (0..64).map(|i| i * 3 - 90).collect();
    let seq = seq_of(original.clone());
    let (s, e) = (13, 40);
    let extracted = seq.sub_seq(s, e);
    let deleted = seq.delete(s, e);
    let restored = deleted.insert(s, &extracted);
    assert_eq!(restored.len(), original.len());
    assert_eq!(restored.samples(0, restored.len()), original);
}

#[test]
fn sequence_reads_and_summary() {
    let seq = BlockSequence::from_blocks(vec![
        Block::data(vec![5, -3, 8]),
        Block::silence(2),
        Block::data(vec![-9, 1]),
    ]);
    assert_eq!(seq.len(), 7);
    assert_eq!(seq.get_sample(0), Some(5));
    assert_eq!(seq.get_sample(3), Some(0));
    assert_eq!(seq.get_sample(5), Some(-9));
    assert_eq!(seq.get_sample(7), None);
    assert_eq!(seq.get_containing_block_index(4), Some(1));
    assert_eq!(seq.get_containing_block_index(9), None);

    // Full-range summary, point summary, and a query past the end.
    assert_eq!(seq.summary(0, 7), (-9, 8));
    assert_eq!(seq.summary(1, 1), (-3, -3));
    assert_eq!(seq.summary(9, 12), (0, 0));
    assert_eq!(seq.summary(3, 5), (0, 0));
}

#[test]
fn map_rng_touches_only_the_range() {
    let seq = seq_of(vec![1, 2, 3, 4, 5]);
    let doubled = seq.map_rng(1, 4, &|x: i64| x * 2);
    assert_eq!(doubled.samples(0, 5), vec![1, 4, 6, 8, 5]);
}

#[test]
fn chunks_share_blocks() {
    // A sub-sequence of a two-block channel keeps the block boundary.
    let seq = BlockSequence::from_blocks(vec![
        Block::data(vec![1, 2, 3, 4]),
        Block::data(vec![5, 6, 7, 8]),
    ]);
    let sub = seq.sub_seq(2, 6);
    assert_eq!(sub.blocks_len(), 2);
    assert_eq!(sub.samples(0, 4), vec![3, 4, 5, 6]);
    let (off, b) = sub.get_block(1).unwrap();
    assert_eq!(off, 2);
    assert_eq!(b.samples(), vec![5, 6]);
}
