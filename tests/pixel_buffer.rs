use prime_spiral::pixels::PixelBuffer;

#[test]
fn test_pixel_buffer() {
    let mut buffer = PixelBuffer::new(10, 10);
    buffer.set_pixel(5, 5, 255, 0, 0, 255);

    let data = buffer.get_data();
    let index = (5 * 10 + 5) * 4;
    assert_eq!(data[index], 255);
    assert_eq!(data[index + 1], 0);
    assert_eq!(data[index + 2], 0);
    assert_eq!(data[index + 3], 255);
}

#[test]
fn new_buffer_is_zeroed() {
    let buffer = PixelBuffer::new(7, 3);
    assert_eq!(buffer.get_data().len(), 7 * 3 * 4);
    assert!(buffer.get_data().iter().all(|b| *b == 0));
    assert_eq!(PixelBuffer::new(0, 5).into_data().len(), 0);
}

#[test]
fn set_pixel_touches_exactly_four_bytes() {
    let mut buffer = PixelBuffer::new(4, 3);
    buffer.set_pixel(3, 2, 1, 2, 3, 4);
    let data = buffer.into_data();
    let offset = (2 * 4 + 3) * 4;
    for (i, b) in data.iter().enumerate() {
        if i >= offset && i < offset + 4 {
            assert_eq!(*b as usize, i - offset + 1);
        } else {
            assert_eq!(*b, 0);
        }
    }
}

#[test]
fn set_pixel_outside_is_ignored() {
    let mut buffer = PixelBuffer::new(4, 3);
    buffer.set_pixel(4, 0, 9, 9, 9, 9);
    buffer.set_pixel(0, 3, 9, 9, 9, 9);
    buffer.set_pixel(u32::MAX, u32::MAX, 9, 9, 9, 9);
    assert!(buffer.get_data().iter().all(|b| *b == 0));

    let mut empty = PixelBuffer::new(0, 0);
    empty.set_pixel(0, 0, 9, 9, 9, 9);
    assert!(empty.get_data().is_empty());
}

#[test]
fn fill_square_clips_at_the_edge() {
    let mut buffer = PixelBuffer::new(3, 3);
    buffer.fill_square(1, 1, 5, 7, 8, 9, 10);
    let data = buffer.into_data();
    for y in 0..3usize {
        for x in 0..3usize {
            let i = (y * 3 + x) * 4;
            let inside = x >= 1 && y >= 1;
            let expected: [u8; 4] = if inside { [7, 8, 9, 10] } else { [0, 0, 0, 0] };
            assert_eq!(&data[i..i + 4], &expected[..]);
        }
    }
}

#[test]
fn fill_square_near_the_coordinate_limit() {
    let mut buffer = PixelBuffer::new(2, 2);
    buffer.fill_square(u32::MAX - 1, 0, 4, 1, 1, 1, 1);
    assert!(buffer.get_data().iter().all(|b| *b == 0));
    buffer.fill_square(0, 0, 0, 1, 1, 1, 1);
    assert!(buffer.get_data().iter().all(|b| *b == 0));
}
