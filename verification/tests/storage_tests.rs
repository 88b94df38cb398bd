use recall_cli::capture::{bgra_to_rgb, check_screen_size, screen_from_bgra, CaptureError};
use recall_cli::storage::{
    capture_timestamp, cleanup_cutoff, compress, date_pattern, decompress, search_pattern, StorageError,
};

#[test]
fn images_read_back_as_saved() {
    let image: Vec<u8> = (0..5000u32).map(|i| (i * 7 % 251) as u8).collect();
    let stored = compress(&image);
    assert_ne!(stored, image);
    assert_eq!(&stored[..4], &[0x28, 0xb5, 0x2f, 0xfd]);
    assert_eq!(decompress(&stored).unwrap(), image);
    assert_eq!(decompress(&compress(&[])).unwrap(), Vec::<u8>::new());
    assert_eq!(decompress(&compress(&[1, 2, 3])).unwrap(), vec![1, 2, 3]);
}

#[test]
fn garbage_does_not_decompress() {
    assert!(matches!(decompress(b"not zstd"), Err(StorageError::Decompression)));
}

#[test]
fn query_patterns() {
    assert_eq!(date_pattern("2024-01-02"), "2024-01-02%");
    assert_eq!(search_pattern("browser"), "%browser%");
    assert_eq!(search_pattern(""), "%%");
    assert_eq!(search_pattern("50%_off\\"), "%50\\%\\_off\\\\%");
    assert_eq!(date_pattern("2024_01%"), "2024\\_01\\%%");
}

#[test]
fn cleanup_cutoff_is_whole_days_earlier() {
    assert_eq!(cleanup_cutoff(2 * 86_400 + 5, 0, 1).unwrap(), "1970-01-02T00:00:05+00:00");
    assert_eq!(cleanup_cutoff(86_400, 500_000_000, 0).unwrap(), "1970-01-02T00:00:00.500+00:00");
    assert_eq!(cleanup_cutoff(1_700_000_000, 0, 30).unwrap(), "2023-10-15T22:13:20+00:00");
    assert_eq!(cleanup_cutoff(0, 0, 1).unwrap(), "1969-12-31T00:00:00+00:00");
}

#[test]
fn capture_timestamps_are_rfc3339() {
    assert_eq!(capture_timestamp(1_700_000_000, 0).unwrap(), "2023-11-14T22:13:20+00:00");
    assert_eq!(capture_timestamp(0, 1_000_000).unwrap(), "1970-01-01T00:00:00.001+00:00");
    assert_eq!(capture_timestamp(i64::MAX, 0), None);
}

#[test]
fn nothing_is_older_than_all_time() {
    assert_eq!(cleanup_cutoff(1_700_000_000, 0, 106_751_991_167), None);
    assert_eq!(cleanup_cutoff(1_700_000_000, 0, 106_751_991_168), None);
    assert_eq!(cleanup_cutoff(1_700_000_000, 0, u64::MAX), None);
    assert_eq!(cleanup_cutoff(i64::MIN, 0, 1), None);
}

#[test]
fn screen_size_must_not_be_empty() {
    assert_eq!(check_screen_size(1920, 1080).unwrap(), (1920, 1080));
    assert!(matches!(check_screen_size(0, 1080), Err(CaptureError::InvalidSize { width: 0, height: 1080 })));
    assert!(matches!(check_screen_size(1920, 0), Err(CaptureError::InvalidSize { .. })));
}

#[test]
fn pixels_are_reordered_to_rgb() {
    let bgra = vec![1, 2, 3, 255, 10, 20, 30, 0];
    assert_eq!(bgra_to_rgb(&bgra), vec![3, 2, 1, 30, 20, 10]);
    assert_eq!(bgra_to_rgb(&vec![]), Vec::<u8>::new());
}

#[test]
fn one_pixel_screen_is_encoded() {
    let screen = screen_from_bgra(1, 1, &vec![0x10, 0x20, 0x30, 0xff]).unwrap();
    let decoded = image::load_from_memory(&screen.png_bytes).unwrap().to_rgb8();
    assert_eq!(decoded.get_pixel(0, 0).0, [0x30, 0x20, 0x10]);
}

#[test]
fn empty_screen_is_not_encoded() {
    assert!(matches!(screen_from_bgra(0, 5, &vec![]), Err(CaptureError::Encoding)));
}

#[test]
fn screen_is_encoded_as_png_of_its_pixels() {
    // 2 x 1 screen: a red pixel, then a blue one (blue, green, red, unused).
    let bgra = vec![0, 0, 255, 0, 255, 0, 0, 0];
    let screen = screen_from_bgra(2, 1, &bgra).unwrap();
    assert_eq!((screen.width, screen.height), (2, 1));
    assert_eq!(&screen.png_bytes[..8], &[0x89, b'P', b'N', b'G', 0x0d, 0x0a, 0x1a, 0x0a]);
    let decoded = image::load_from_memory(&screen.png_bytes).unwrap().to_rgb8();
    assert_eq!(decoded.dimensions(), (2, 1));
    assert_eq!(decoded.get_pixel(0, 0).0, [255, 0, 0]);
    assert_eq!(decoded.get_pixel(1, 0).0, [0, 0, 255]);
}
