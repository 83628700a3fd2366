use prf_chunker::chunk::{decimal_string, Chunk};
use prf_chunker::chunker::{FSWChunker, PHTEChunker, PHTEChunkerAESCrypto, PHTEChunkerNoAES};
use prf_chunker::chunkmaker::{ChunkMaker, BUFFER_SIZE};
use prf_chunker::partition::{MAX_CHUNK_SIZE, MIN_CHUNK_SIZE};
use rand::Rng;
use rand_chacha::rand_core::SeedableRng;
use rand_chacha::ChaCha12Rng;

fn noise(len: usize, seed: u64) -> Vec<u8> {
    let mut x = seed;
    let mut out = Vec::with_capacity(len);
    for _ in 0..len {
        x = x
            .wrapping_mul(6364136223846793005)
            .wrapping_add(1442695040888963407);
        out.push((x >> 56) as u8);
    }
    out
}

fn lengths(chunks: &[Chunk]) -> Vec<usize> {
    chunks.iter().map(|c| c.len()).collect()
}

fn ends(chunks: &[Chunk]) -> Vec<usize> {
    chunks.iter().map(|c| c.index()).collect()
}

fn join(chunks: &[Chunk]) -> Vec<u8> {
    let mut all = Vec::new();
    for c in chunks {
        all.extend_from_slice(c.data());
    }
    all
}

fn in_pieces<C: FSWChunker>(master: &[u8; 32], data: &[u8], piece: usize) -> Vec<Chunk> {
    let mut maker = ChunkMaker::<C>::new(master);
    let mut chunks = Vec::new();
    for part in data.chunks(piece) {
        chunks.extend(maker.feed(part));
    }
    chunks.extend(maker.finish());
    chunks
}

fn check_shape(chunks: &[Chunk], data: &[u8]) {
    let mut end = 0;
    for (i, c) in chunks.iter().enumerate() {
        assert!(c.len() >= 1);
        assert!(c.len() <= MAX_CHUNK_SIZE);
        if i + 1 < chunks.len() {
            assert!(c.len() >= MIN_CHUNK_SIZE);
        }
        assert!(end + c.len() <= data.len());
        assert!(c.data() == &data[end..end + c.len()]);
        end += c.len();
        assert_eq!(c.index(), end);
    }
    assert_eq!(end, data.len());
}

#[test]
fn test_chunkify() {
    let master_key = [0u8; 32];

    let mut data: Vec<u8> = Vec::with_capacity(1024 * 1024 * 10);
    let mut rng = ChaCha12Rng::seed_from_u64(0);
    rng.fill(&mut data[..]);

    let mut chunks: Vec<Chunk> = Vec::new();

    let mut chunker = ChunkMaker::<PHTEChunker>::new(&master_key);
    for chunk in chunker.chunkify(&data) {
        println!("{}", chunk.describe());
        chunks.push(chunk);
    }
    assert_eq!(chunks.len(), 0);
}

#[test]
fn tunables() {
    assert_eq!(MIN_CHUNK_SIZE, 524288);
    assert_eq!(MAX_CHUNK_SIZE, 8388608);
    assert_eq!(BUFFER_SIZE, 1048576);
}

#[test]
fn chunk_new_moves_the_bytes_out() {
    let mut data = vec![1u8, 2, 3];
    let chunk = Chunk::new(5, &mut data);
    assert!(data.is_empty());
    assert_eq!(chunk.index(), 5);
    assert_eq!(chunk.data(), &[1u8, 2, 3]);
    assert_eq!(chunk.len(), 3);
}

#[test]
fn chunk_describes_itself() {
    let mut data = vec![1u8, 2, 3];
    let chunk = Chunk::new(5, &mut data);
    assert_eq!(chunk.describe(), "Chunk at position 5 with 3 bytes");
    let mut none = Vec::new();
    let empty = Chunk::new(0, &mut none);
    assert_eq!(empty.describe(), "Chunk at position 0 with 0 bytes");
    let mut many = vec![0u8; 1200];
    let big = Chunk::new(9876543210, &mut many);
    assert_eq!(big.describe(), "Chunk at position 9876543210 with 1200 bytes");
}

#[test]
fn decimal_text() {
    assert_eq!(decimal_string(0), "0");
    assert_eq!(decimal_string(7), "7");
    assert_eq!(decimal_string(10), "10");
    assert_eq!(decimal_string(1234567890), "1234567890");
    assert_eq!(decimal_string(usize::MAX), format!("{}", usize::MAX));
}

#[test]
fn empty_stream_gives_no_chunk() {
    let mut maker = ChunkMaker::<PHTEChunkerNoAES>::new(&[0u8; 32]);
    let chunks = maker.chunkify(&[]);
    assert!(chunks.is_empty());
    assert_eq!(maker.offset(), 0);
    assert!(maker.finish().is_none());
}

#[test]
fn short_stream_gives_one_chunk() {
    let data = [0u8; 100];
    let mut maker = ChunkMaker::<PHTEChunkerNoAES>::new(&[0u8; 32]);
    let chunks = maker.chunkify(&data);
    assert_eq!(lengths(&chunks), vec![100]);
    assert_eq!(ends(&chunks), vec![100]);
    assert_eq!(chunks[0].data(), &data[..]);
    assert_eq!(maker.offset(), 100);
    assert_eq!(maker.pending_len(), 0);
}

#[test]
fn stream_one_byte_short_of_the_least_size() {
    let data = noise(MIN_CHUNK_SIZE - 1, 3);
    for piece in [1usize << 20, 4096, 1000] {
        let chunks = in_pieces::<PHTEChunkerNoAES>(&[0u8; 32], &data, piece);
        assert_eq!(lengths(&chunks), vec![MIN_CHUNK_SIZE - 1]);
        check_shape(&chunks, &data);
    }
}

#[test]
fn zero_bytes_cut_at_the_least_size_without_aes() {
    let data = vec![0u8; 600_000];
    let mut maker = ChunkMaker::<PHTEChunkerNoAES>::new(&[0u8; 32]);
    let chunks = maker.chunkify(&data);
    assert_eq!(lengths(&chunks), vec![524288, 75712]);
    assert_eq!(ends(&chunks), vec![524288, 600000]);
    check_shape(&chunks, &data);
}

#[test]
fn zero_bytes_end_before_any_cut_with_aes() {
    let data = vec![0u8; 600_000];
    let mut maker = ChunkMaker::<PHTEChunker>::new(&[0u8; 32]);
    let chunks = maker.chunkify(&data);
    assert_eq!(lengths(&chunks), vec![600000]);
    assert_eq!(ends(&chunks), vec![600000]);
    let mut alt = ChunkMaker::<PHTEChunkerAESCrypto>::new(&[0u8; 32]);
    assert_eq!(lengths(&alt.chunkify(&data)), vec![600000]);
}

#[test]
fn constant_input_is_cut_at_the_greatest_size() {
    let data = vec![1u8; 9 * 1024 * 1024];
    let mut maker = ChunkMaker::<PHTEChunkerNoAES>::new(&[0u8; 32]);
    let chunks = maker.chunkify(&data);
    assert_eq!(lengths(&chunks), vec![MAX_CHUNK_SIZE, 1024 * 1024]);
    assert_eq!(ends(&chunks), vec![MAX_CHUNK_SIZE, 9 * 1024 * 1024]);
    check_shape(&chunks, &data);
}

#[test]
fn stream_of_exactly_the_greatest_size() {
    let data = vec![1u8; MAX_CHUNK_SIZE];
    let mut maker = ChunkMaker::<PHTEChunkerNoAES>::new(&[0u8; 32]);
    let chunks = maker.feed(&data);
    assert_eq!(lengths(&chunks), vec![MAX_CHUNK_SIZE]);
    assert_eq!(maker.pending_len(), 0);
    assert!(maker.finish().is_none());
}

#[test]
fn a_cut_window_ends_the_chunk_without_aes() {
    let mut data = vec![1u8; MIN_CHUNK_SIZE + 1000 - 3];
    data.extend_from_slice(&[12, 200, 27]);
    data.extend_from_slice(&[1u8; 5000]);
    for piece in [data.len(), BUFFER_SIZE, 65536, 777] {
        let chunks = in_pieces::<PHTEChunkerNoAES>(&[0u8; 32], &data, piece);
        assert_eq!(lengths(&chunks), vec![525288, 5000]);
        assert_eq!(ends(&chunks), vec![525288, 530288]);
        check_shape(&chunks, &data);
    }
}

#[test]
fn a_cut_window_ends_the_chunk_with_aes() {
    let mut data = vec![1u8; MIN_CHUNK_SIZE + 1000 - 3];
    data.extend_from_slice(&[23, 36, 46]);
    data.extend_from_slice(&[1u8; 5000]);
    let chunks = in_pieces::<PHTEChunker>(&[0u8; 32], &data, BUFFER_SIZE);
    assert_eq!(lengths(&chunks), vec![525288, 5000]);
    check_shape(&chunks, &data);
    let chunks = in_pieces::<PHTEChunkerAESCrypto>(&[0u8; 32], &data, 5000);
    assert_eq!(lengths(&chunks), vec![525288, 5000]);
    check_shape(&chunks, &data);
    let plain = in_pieces::<PHTEChunkerNoAES>(&[0u8; 32], &data, BUFFER_SIZE);
    assert_eq!(lengths(&plain), vec![530288]);
}

#[test]
fn the_earliest_cut_gives_a_chunk_of_the_least_size() {
    let mut data = vec![1u8; MIN_CHUNK_SIZE - 3];
    data.extend_from_slice(&[12, 200, 27]);
    data.extend_from_slice(&[1u8; 10]);
    let chunks = in_pieces::<PHTEChunkerNoAES>(&[0u8; 32], &data, 4096);
    assert_eq!(lengths(&chunks), vec![MIN_CHUNK_SIZE, 10]);
    check_shape(&chunks, &data);
}

#[test]
fn a_cut_window_before_the_least_size_is_passed_over() {
    let mut data = vec![1u8; MIN_CHUNK_SIZE - 4];
    data.extend_from_slice(&[12, 200, 27]);
    data.extend_from_slice(&[1u8; 11]);
    let chunks = in_pieces::<PHTEChunkerNoAES>(&[0u8; 32], &data, 4096);
    assert_eq!(lengths(&chunks), vec![MIN_CHUNK_SIZE + 10]);
}

#[test]
fn noise_without_aes() {
    let data = noise(6 * 1024 * 1024, 1);
    assert_eq!(&data[..8], &[108, 130, 165, 98, 203, 128, 141, 16]);
    let mut maker = ChunkMaker::<PHTEChunkerNoAES>::new(&[0u8; 32]);
    let chunks = maker.chunkify(&data);
    assert_eq!(
        lengths(&chunks),
        vec![1101998, 1082717, 840998, 756662, 1175811, 1183172, 150098]
    );
    check_shape(&chunks, &data);
}

#[test]
fn noise_with_aes() {
    let data = noise(4 * 1024 * 1024, 1);
    let mut maker = ChunkMaker::<PHTEChunker>::new(&[0u8; 32]);
    let chunks = maker.chunkify(&data);
    assert_eq!(lengths(&chunks), vec![1151907, 720235, 861240, 1460922]);
    check_shape(&chunks, &data);
}

#[test]
fn noise_with_the_second_aes() {
    let data = noise(4 * 1024 * 1024, 1);
    let mut maker = ChunkMaker::<PHTEChunkerAESCrypto>::new(&[0u8; 32]);
    let chunks = maker.chunkify(&data);
    assert_eq!(lengths(&chunks), vec![1151907, 720235, 861240, 1460922]);
    check_shape(&chunks, &data);
}

#[test]
fn chunks_do_not_depend_on_the_pieces() {
    let data = noise(3 * 1024 * 1024, 7);
    let mut maker = ChunkMaker::<PHTEChunkerNoAES>::new(&[0u8; 32]);
    let whole = maker.chunkify(&data);
    assert_eq!(lengths(&whole), vec![679454, 1073157, 1393117]);
    for piece in [1usize, 63, 64, 65, 4096, MIN_CHUNK_SIZE - 64, MIN_CHUNK_SIZE - 1, BUFFER_SIZE] {
        let chunks = in_pieces::<PHTEChunkerNoAES>(&[0u8; 32], &data, piece);
        assert_eq!(lengths(&chunks), lengths(&whole));
        assert_eq!(ends(&chunks), ends(&whole));
        assert_eq!(join(&chunks), data);
    }
}

#[test]
fn chunks_are_the_same_on_every_run() {
    let data = noise(2 * 1024 * 1024, 11);
    let first = in_pieces::<PHTEChunker>(&[5u8; 32], &data, BUFFER_SIZE);
    let second = in_pieces::<PHTEChunker>(&[5u8; 32], &data, BUFFER_SIZE);
    assert_eq!(lengths(&first), lengths(&second));
    check_shape(&first, &data);
}

#[test]
fn another_key_moves_the_cuts() {
    let data = noise(3 * 1024 * 1024, 7);
    let zero = in_pieces::<PHTEChunkerNoAES>(&[0u8; 32], &data, BUFFER_SIZE);
    let one = in_pieces::<PHTEChunkerNoAES>(&[1u8; 32], &data, BUFFER_SIZE);
    assert_eq!(lengths(&zero), vec![679454, 1073157, 1393117]);
    assert_eq!(lengths(&one), vec![1303030, 1020258, 820730, 1710]);
    check_shape(&one, &data);
}

#[test]
fn feed_hands_out_chunks_as_they_complete() {
    let data = noise(3 * 1024 * 1024, 7);
    let mut maker = ChunkMaker::<PHTEChunkerNoAES>::new(&[0u8; 32]);
    let first = maker.feed(&data[..679453]);
    assert!(first.is_empty());
    assert_eq!(maker.pending_len(), 679453);
    assert_eq!(maker.offset(), 679453);
    let second = maker.feed(&data[679453..679455]);
    assert_eq!(lengths(&second), vec![679454]);
    assert_eq!(ends(&second), vec![679454]);
    assert_eq!(maker.pending_len(), 1);
    assert_eq!(maker.offset(), 679455);
    let third = maker.feed(&data[679455..]);
    assert_eq!(lengths(&third), vec![1073157]);
    assert_eq!(ends(&third), vec![1752611]);
    let last = maker.finish();
    assert_eq!(last.map(|c| (c.index(), c.len())), Some((3145728, 1393117)));
    assert_eq!(maker.pending_len(), 0);
    assert!(maker.finish().is_none());
}

#[test]
fn a_second_stream_continues_the_offsets() {
    let mut maker = ChunkMaker::<PHTEChunkerNoAES>::new(&[0u8; 32]);
    let first = maker.chunkify(&[9u8; 10]);
    assert_eq!(ends(&first), vec![10]);
    let second = maker.chunkify(&[8u8; 5]);
    assert_eq!(ends(&second), vec![15]);
    assert_eq!(second[0].data(), &[8u8; 5]);
}

#[test]
fn another_key_moves_the_cuts_with_aes() {
    let data = noise(3 * 1024 * 1024, 7);
    let zero = in_pieces::<PHTEChunker>(&[0u8; 32], &data, BUFFER_SIZE);
    let one = in_pieces::<PHTEChunker>(&[1u8; 32], &data, BUFFER_SIZE);
    assert_eq!(lengths(&zero), vec![905746, 1091972, 734889, 413121]);
    assert_eq!(lengths(&one), vec![1656983, 599567, 730632, 158546]);
    assert_ne!(ends(&zero), ends(&one));
}

#[test]
fn an_insertion_moves_only_the_chunk_it_falls_in() {
    let data = noise(3 * 1024 * 1024, 7);
    let mut longer = data[..700000].to_vec();
    longer.extend_from_slice(&[0xABu8; 100]);
    longer.extend_from_slice(&data[700000..]);
    let before = in_pieces::<PHTEChunkerNoAES>(&[0u8; 32], &data, BUFFER_SIZE);
    let after = in_pieces::<PHTEChunkerNoAES>(&[0u8; 32], &longer, BUFFER_SIZE);
    assert_eq!(lengths(&before), vec![679454, 1073157, 1393117]);
    assert_eq!(lengths(&after), vec![679454, 1073257, 1393117]);
    assert_eq!(before[0].data(), after[0].data());
    assert_eq!(before[2].data(), after[2].data());
}

#[test]
fn a_deletion_moves_only_the_chunk_it_falls_in() {
    let data = noise(3 * 1024 * 1024, 7);
    let mut shorter = data[..700000].to_vec();
    shorter.extend_from_slice(&data[700050..]);
    let before = in_pieces::<PHTEChunkerNoAES>(&[0u8; 32], &data, BUFFER_SIZE);
    let after = in_pieces::<PHTEChunkerNoAES>(&[0u8; 32], &shorter, BUFFER_SIZE);
    assert_eq!(lengths(&after), vec![679454, 1073107, 1393117]);
    assert_eq!(before[0].data(), after[0].data());
    assert_eq!(before[2].data(), after[2].data());
}

#[test]
fn keystream_chunks_keep_the_bounds() {
    let mut data = vec![0u8; 64 * 1024 * 1024];
    let mut rng = ChaCha12Rng::seed_from_u64(0);
    rng.fill(&mut data[..]);
    assert_eq!(&data[..8], &[127, 111, 44, 205, 178, 63, 42, 187]);
    let mut maker = ChunkMaker::<PHTEChunkerNoAES>::new(&[0u8; 32]);
    let chunks = maker.chunkify(&data);
    check_shape(&chunks, &data);
    let sizes = lengths(&chunks);
    assert_eq!(sizes.len(), 47);
    assert_eq!(&sizes[..4], &[913570, 748015, 658455, 784559]);
    assert_eq!(&sizes[44..], &[2800132, 3128411, 100006]);
    for &size in &sizes[..46] {
        assert!(size >= MIN_CHUNK_SIZE && size <= MAX_CHUNK_SIZE);
    }
    let searched: usize = sizes[..46].iter().map(|size| size - MIN_CHUNK_SIZE + 1).sum();
    let mean = searched / 46;
    assert!(mean >= (1 << 20) * 8 / 10);
    assert!(mean <= (1 << 20) * 12 / 10);
}
