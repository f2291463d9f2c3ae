use consensus::commitor::{Commit, Commitor, MAX_BLOCK_BUFFER};
use consensus::messages::Block;

fn block(epoch: u64, height: u64, tag: u8) -> Block {
    Block {
        author: height,
        epoch,
        height,
        payload: vec![[tag; 32]],
        digest: [tag; 32],
        signature: [0u8; 64],
    }
}

fn notice(epoch: u64, height: u64, tag: u8) -> Commit {
    Commit { digests: vec![[tag; 32]], epoch, height }
}

fn excluded(epoch: u64, height: u64) -> Commit {
    Commit { digests: Vec::new(), epoch, height }
}

#[test]
fn the_first_rank_leaves_at_once() {
    let mut buffer = Commitor::new(4);
    assert_eq!(buffer.next_rank(), 0);
    assert_eq!(buffer.buffer_block(block(0, 0, 1)), vec![notice(0, 0, 1)]);
    assert_eq!(buffer.next_rank(), 1);
}

#[test]
fn a_later_rank_waits_for_the_ranks_before_it() {
    let mut buffer = Commitor::new(4);
    assert_eq!(buffer.buffer_block(block(0, 2, 3)), Vec::new());
    assert_eq!(buffer.buffer_block(block(0, 1, 2)), Vec::new());
    assert_eq!(buffer.next_rank(), 0);
    assert_eq!(
        buffer.buffer_block(block(0, 0, 1)),
        vec![notice(0, 0, 1), notice(0, 1, 2), notice(0, 2, 3)]
    );
    assert_eq!(buffer.next_rank(), 3);
}

#[test]
fn an_excluded_instance_leaves_as_an_empty_notice() {
    let mut buffer = Commitor::new(4);
    assert_eq!(buffer.buffer_block(block(0, 1, 2)), Vec::new());
    assert_eq!(buffer.filter_block(0, 0), vec![excluded(0, 0), notice(0, 1, 2)]);
}

#[test]
fn ranks_run_across_epochs() {
    let mut buffer = Commitor::new(2);
    assert_eq!(buffer.buffer_block(block(1, 0, 3)), Vec::new());
    assert_eq!(buffer.buffer_block(block(0, 0, 1)), vec![notice(0, 0, 1)]);
    assert_eq!(buffer.filter_block(0, 1), vec![excluded(0, 1), notice(1, 0, 3)]);
    assert_eq!(buffer.next_rank(), 3);
}

#[test]
fn the_first_seal_of_an_instance_stands() {
    let mut buffer = Commitor::new(4);
    assert_eq!(buffer.buffer_block(block(0, 1, 2)), Vec::new());
    assert_eq!(buffer.filter_block(0, 1), Vec::new());
    assert_eq!(buffer.buffer_block(block(0, 1, 9)), Vec::new());
    assert_eq!(buffer.filter_block(0, 0), vec![excluded(0, 0), notice(0, 1, 2)]);
    let mut buffer = Commitor::new(4);
    assert_eq!(buffer.filter_block(0, 1), Vec::new());
    assert_eq!(buffer.buffer_block(block(0, 1, 2)), Vec::new());
    assert_eq!(buffer.buffer_block(block(0, 0, 1)), vec![notice(0, 0, 1), excluded(0, 1)]);
}

#[test]
fn what_has_left_does_not_come_back() {
    let mut buffer = Commitor::new(4);
    assert_eq!(buffer.buffer_block(block(0, 0, 1)), vec![notice(0, 0, 1)]);
    assert_eq!(buffer.buffer_block(block(0, 0, 1)), Vec::new());
    assert_eq!(buffer.filter_block(0, 0), Vec::new());
    assert_eq!(buffer.next_rank(), 1);
}

#[test]
fn a_height_outside_the_committee_is_ignored() {
    let mut buffer = Commitor::new(4);
    assert_eq!(buffer.filter_block(0, 4), Vec::new());
    assert_eq!(buffer.buffer_block(block(0, 5, 1)), Vec::new());
    assert_eq!(buffer.filter_block(0, 0), vec![excluded(0, 0)]);
    assert_eq!(buffer.filter_block(0, 1), vec![excluded(0, 1)]);
    assert_eq!(buffer.next_rank(), 2);
}

#[test]
fn the_window_ends_a_buffer_length_ahead() {
    let size = 4u64;
    let capacity = MAX_BLOCK_BUFFER as u64;
    let mut buffer = Commitor::new(size as usize);
    let last = capacity - 1;
    assert_eq!(buffer.filter_block(capacity / size, 0), Vec::new());
    assert_eq!(buffer.filter_block(last / size, last % size), Vec::new());
    let mut rank = 0u64;
    let mut seen = Vec::new();
    while rank < last {
        let out = buffer.filter_block(rank / size, rank % size);
        for commit in out {
            seen.push((commit.epoch, commit.height));
        }
        rank += 1;
    }
    assert_eq!(seen.len() as u64, capacity);
    assert_eq!(seen[seen.len() - 1], (last / size, last % size));
    assert_eq!(buffer.next_rank(), capacity as u128);
    assert_eq!(buffer.filter_block(capacity / size, 0), vec![excluded(capacity / size, 0)]);
}

#[test]
fn ranks_leave_in_strictly_increasing_order() {
    let size = 3u64;
    let mut buffer = Commitor::new(size as usize);
    let order = [5u64, 2, 7, 0, 1, 4, 3, 8, 6, 11, 10, 9];
    let mut ranks = Vec::new();
    for rank in order {
        let out = if rank % 2 == 0 {
            buffer.buffer_block(block(rank / size, rank % size, rank as u8))
        } else {
            buffer.filter_block(rank / size, rank % size)
        };
        for commit in out {
            ranks.push(commit.epoch * size + commit.height);
        }
    }
    assert_eq!(ranks, vec![0, 1, 2, 3, 4, 5, 6, 7, 8, 9, 10, 11]);
}

#[test]
fn the_ring_wraps_around() {
    let size = 1u64;
    let mut buffer = Commitor::new(1);
    let total = MAX_BLOCK_BUFFER as u64 + 10;
    let mut count = 0u64;
    for epoch in 0..total {
        let out = buffer.filter_block(epoch, 0);
        assert_eq!(out, vec![excluded(epoch, 0)]);
        count += size;
    }
    assert_eq!(buffer.next_rank(), count as u128);
    assert_eq!(buffer.buffer_block(block(total + 1, 0, 1)), Vec::new());
    assert_eq!(
        buffer.buffer_block(block(total, 0, 2)),
        vec![notice(total, 0, 2), notice(total + 1, 0, 1)]
    );
}
