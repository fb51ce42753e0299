use zensally::model::decompress_gz;
use zenflate::{CompressionLevel, Compressor, Unstoppable};

fn gzip(data: &[u8]) -> Vec<u8> {
    let mut c = Compressor::new(CompressionLevel::fastest());
    let mut out = vec![0u8; Compressor::gzip_compress_bound(data.len())];
    let n = c.gzip_compress(data, &mut out, Unstoppable).unwrap();
    out.truncate(n);
    out
}

#[test]
fn decompress_gz_round_trip() {
    let data: Vec<u8> = (0..5000u32).map(|i| (i % 251) as u8).collect();
    let packed = gzip(&data);
    assert!(packed.len() < data.len());
    assert_eq!(decompress_gz(&packed).unwrap(), data);
}

#[test]
fn decompress_gz_empty_payload() {
    let packed = gzip(&[]);
    assert_eq!(decompress_gz(&packed).unwrap(), Vec::<u8>::new());
}

#[test]
fn decompress_gz_rejects_garbage() {
    assert!(decompress_gz(&[1, 2, 3, 4, 5, 6, 7, 8, 9, 10, 11, 12, 13, 14, 15, 16, 17, 18, 0, 0, 0, 0]).is_none());
}

#[test]
fn decompress_gz_rejects_wrong_size_trailer() {
    let mut packed = gzip(b"hello hello hello");
    let n = packed.len();
    packed[n - 4] = packed[n - 4].wrapping_add(1);
    assert!(decompress_gz(&packed).is_none());
}
