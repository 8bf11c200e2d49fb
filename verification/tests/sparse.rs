use nebula::sparse::{
    copy_sparse, nonzero_runs, physical_bytes, write_sparse, write_sparse_many, FileOp, SparseError,
    SparseWriter, BLOCK, IO_CHUNK,
};

/// A file in memory, which the writer's steps are applied to.
fn applied(before: Vec<u8>, ops: &[FileOp]) -> Vec<u8> {
    // Opening for writing truncates whatever was there.
    let mut data = before;
    data.clear();
    let mut pos = 0usize;
    for op in ops {
        match op {
            FileOp::SeekTo(n) => pos = *n as usize,
            FileOp::Write(bytes) => {
                if data.len() < pos + bytes.len() {
                    data.resize(pos + bytes.len(), 0);
                }
                data[pos..pos + bytes.len()].copy_from_slice(bytes);
                pos += bytes.len();
            }
            FileOp::SetLen(n) => data.resize(*n as usize, 0),
        }
    }
    data
}

/// How many bytes the steps write.
fn written(ops: &[FileOp]) -> usize {
    ops.iter()
        .map(|op| match op {
            FileOp::Write(b) => b.len(),
            _ => 0,
        })
        .sum()
}

/// The property everything else rests on: same bytes out as in.
fn round_trips(name: &str, data: &[u8]) {
    let (ops, n) = write_sparse(&vec![data.to_vec()]);
    assert_eq!(n, data.len() as u64, "{name}: logical size");
    let back = applied(vec![], &ops);
    assert_eq!(back.len(), data.len(), "{name}: file length");
    assert!(back == data, "{name}: content differs from the source");
}

#[test]
fn empty_input() {
    round_trips("empty", &[]);
}

#[test]
fn all_zeros_keeps_its_length() {
    round_trips("zeros", &vec![0u8; BLOCK * 3]);
}

#[test]
fn no_zeros_at_all() {
    let data: Vec<u8> = (0..BLOCK * 2 + 7).map(|i| (i % 255 + 1) as u8).collect();
    round_trips("dense", &data);
}

#[test]
fn data_holes_data() {
    let mut data = vec![0u8; BLOCK * 5];
    data[..BLOCK].fill(0xAB);
    data[BLOCK * 4..].fill(0xCD);
    round_trips("holes", &data);
}

#[test]
fn trailing_zeros_are_preserved() {
    // The case the final length exists for: nothing is written after the
    // data, so without it the file would end early.
    let mut data = vec![0u8; BLOCK * 4];
    data[..100].fill(0x7F);
    round_trips("trailing", &data);
}

#[test]
fn partial_final_block() {
    let mut data = vec![0u8; BLOCK * 2 + 13];
    data[BLOCK * 2..].fill(0x11);
    round_trips("partial", &data);
}

#[test]
fn a_single_nonzero_byte_in_a_block_keeps_the_block() {
    let mut data = vec![0u8; BLOCK * 3];
    data[BLOCK + 40_000] = 1;
    round_trips("needle", &data);
}

#[test]
fn shorter_than_one_block() {
    round_trips("tiny", &[1, 2, 3, 0, 0, 0, 4]);
}

#[test]
fn short_reads_do_not_change_the_output() {
    let mut data = vec![0u8; BLOCK * 2 + 5];
    data[10] = 9;
    data[BLOCK + 3] = 8;
    // One byte at a time: a gzip decoder can be nearly as awkward.
    let dribble: Vec<Vec<u8>> = data.iter().map(|b| vec![*b]).collect();
    let (ops, _) = write_sparse(&dribble);
    assert!(applied(vec![], &ops) == data);
}

#[test]
fn copy_matches_the_source_and_punches_holes() {
    const LEN: usize = BLOCK * 768; // 48 MiB
    let mut data = vec![0u8; LEN];
    data[..BLOCK].fill(0x5A);
    assert!(copy_sparse("/disk.img", false).is_ok());
    let (ops, n) = write_sparse(&vec![data.clone()]);
    assert!(applied(vec![], &ops) == data, "content differs");
    assert_eq!(n, LEN as u64);
    // The point of the exercise: only the data is ever written.
    let phys = written(&ops);
    assert!(
        phys < LEN / 2,
        "expected a sparse copy, got {phys} bytes for a {LEN}-byte file"
    );
    assert_eq!(phys, BLOCK);
}

#[test]
fn many_destinations_all_match() {
    let mut data = vec![0u8; BLOCK * 5];
    data[..BLOCK].fill(0x3C);
    data[BLOCK * 3..BLOCK * 3 + 10].fill(0x7E);
    let (ops, n) = write_sparse_many(&vec![data.clone()], 2).unwrap();
    assert_eq!(n, data.len() as u64);
    for before in [vec![], vec![0xFFu8; BLOCK]] {
        assert!(applied(before, &ops) == data, "a destination differs");
    }
}

#[test]
fn runs_spanning_io_chunks_survive() {
    // Non-zero data straddling the read boundary is where coalescing gets
    // the offsets wrong if it gets them wrong at all.
    let mut data = vec![0u8; IO_CHUNK * 2 + BLOCK * 3];
    for (i, b) in data.iter_mut().enumerate() {
        let in_run = (i > IO_CHUNK - BLOCK && i < IO_CHUNK + BLOCK * 2)
            || (i > IO_CHUNK * 2 - 10 && i < IO_CHUNK * 2 + 10);
        if in_run {
            *b = (i % 251 + 1) as u8;
        }
    }
    round_trips("spanning", &data);
}

#[test]
fn no_destination_is_an_error() {
    assert!(write_sparse_many(&vec![b"x".to_vec()], 0).is_err());
}

#[test]
fn copying_a_file_onto_itself_is_refused() {
    // A plain copy truncates the source first, which would eat an installed
    // kernel (`install-image --kernel ~/.nebula/...`).
    let e = copy_sparse("/home/x/self", true).unwrap_err();
    assert!(matches!(&e, SparseError::OntoItself(p) if p == "/home/x/self"));
}

#[test]
fn overwrites_a_larger_existing_file() {
    // Upgrades write over the previous install; nothing of it may survive.
    let data = vec![0x22u8; 100];
    let (ops, _) = write_sparse(&vec![data.clone()]);
    assert_eq!(applied(vec![0xFFu8; BLOCK * 4], &ops), data);
}

#[test]
fn pieces_make_no_difference() {
    let mut data = vec![0u8; BLOCK * 3 + 9];
    data[BLOCK * 2 + 1] = 4;
    let mut w = SparseWriter::new();
    let mut ops = w.push(&data[..BLOCK + 1]);
    ops.extend(w.push(&data[BLOCK + 1..]));
    let (last, n) = w.finish();
    ops.extend(last);
    assert_eq!(n, data.len() as u64);
    assert!(applied(vec![], &ops) == data);
}

#[test]
fn runs_are_block_aligned() {
    let mut buf = vec![0u8; BLOCK * 3];
    buf[BLOCK + 5] = 1;
    assert_eq!(nonzero_runs(&buf), vec![(BLOCK, BLOCK * 2)]);
    buf[BLOCK * 2] = 1;
    assert_eq!(nonzero_runs(&buf), vec![(BLOCK, BLOCK * 3)]);
    assert_eq!(nonzero_runs(&[]), vec![]);
}

#[test]
fn allocation_is_counted_in_half_kibibytes() {
    assert_eq!(physical_bytes(Some(3)), Some(1536));
    assert_eq!(physical_bytes(None), None);
}

#[test]
fn sparse_errors_say_what_is_wrong() {
    assert_eq!(SparseError::NoDestination.message(), "no destination to write");
    assert_eq!(
        SparseError::OntoItself("/a".to_string()).message(),
        "refusing to copy /a onto itself"
    );
}
