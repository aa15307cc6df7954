use bootloader::buffer::DiskBuffer;

#[test]
fn new_buffer_is_empty_and_zeroed() {
    let buffer: DiskBuffer<4096> = DiskBuffer::new();
    assert_eq!(buffer.len(), 0);
    assert_eq!(buffer.space_left(), 4096);
    assert_eq!(buffer.as_ptr().len(), 4096);
    assert!(buffer.as_ptr().iter().all(|b| *b == 0));
}

#[test]
fn zero_capacity_buffer() {
    let mut buffer: DiskBuffer<0> = DiskBuffer::new();
    assert_eq!(buffer.len(), 0);
    assert_eq!(buffer.space_left(), 0);
    buffer.advance(0);
    buffer.store(&[]);
    buffer.clear();
    assert_eq!(buffer.len(), 0);
}

#[test]
fn advance_moves_the_cursor() {
    let mut buffer: DiskBuffer<1024> = DiskBuffer::new();
    buffer.advance(512);
    assert_eq!(buffer.len(), 512);
    assert_eq!(buffer.space_left(), 512);
    buffer.advance(0);
    assert_eq!(buffer.len(), 512);
    buffer.advance(512);
    assert_eq!(buffer.len(), 1024);
    assert_eq!(buffer.space_left(), 0);
}

#[test]
fn store_writes_at_the_cursor_without_moving_it() {
    let mut buffer: DiskBuffer<8> = DiskBuffer::new();
    buffer.store(&[1, 2, 3]);
    assert_eq!(buffer.len(), 0);
    assert_eq!(buffer.as_ptr(), &[1, 2, 3, 0, 0, 0, 0, 0]);
    buffer.advance(3);
    buffer.store(&[9, 8]);
    assert_eq!(buffer.len(), 3);
    assert_eq!(buffer.as_ptr(), &[1, 2, 3, 9, 8, 0, 0, 0]);
    buffer.advance(2);
    buffer.store(&[7, 7, 7]);
    buffer.advance(3);
    assert_eq!(buffer.as_ptr(), &[1, 2, 3, 9, 8, 7, 7, 7]);
    assert_eq!(buffer.space_left(), 0);
}

#[test]
fn copy_to_ptr_copies_only_the_staged_bytes() {
    let mut buffer: DiskBuffer<8> = DiskBuffer::new();
    buffer.store(&[1, 2, 3, 4, 5]);
    buffer.advance(3);
    let mut target = [0xAAu8; 6];
    buffer.copy_to_ptr(&mut target);
    assert_eq!(target, [1, 2, 3, 0xAA, 0xAA, 0xAA]);
}

#[test]
fn copy_to_ptr_of_empty_buffer_changes_nothing() {
    let buffer: DiskBuffer<8> = DiskBuffer::new();
    let mut target = [0x55u8; 4];
    buffer.copy_to_ptr(&mut target);
    assert_eq!(target, [0x55; 4]);
    let mut empty: [u8; 0] = [];
    buffer.copy_to_ptr(&mut empty);
}

#[test]
fn clear_zeroes_and_resets() {
    let mut buffer: DiskBuffer<8> = DiskBuffer::new();
    buffer.store(&[1, 2, 3, 4, 5, 6, 7, 8]);
    buffer.advance(8);
    buffer.clear();
    assert_eq!(buffer.len(), 0);
    assert_eq!(buffer.space_left(), 8);
    assert_eq!(buffer.as_ptr(), &[0u8; 8]);
}

#[test]
fn cursor_stays_within_capacity_over_fill_and_flush_rounds() {
    let mut buffer: DiskBuffer<2048> = DiskBuffer::new();
    let mut flushed: usize = 0;
    let mut advanced: usize = 0;
    let chunks = [512usize, 1024, 512, 1536, 512, 512, 2048, 512];
    for chunk in chunks {
        if chunk > buffer.space_left() {
            flushed += buffer.len();
            buffer.clear();
        }
        buffer.advance(chunk);
        advanced += chunk;
        assert!(buffer.len() <= 2048);
        assert_eq!(buffer.len() + buffer.space_left(), 2048);
    }
    flushed += buffer.len();
    assert_eq!(flushed, advanced);
}
