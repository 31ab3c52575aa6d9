use amqp_core::buffer::{Buffer, BufferError, MAX_CAPACITY};

fn put(buffer: &mut Buffer, bytes: &[u8]) {
    let space = buffer.space();
    space[..bytes.len()].copy_from_slice(bytes);
    buffer.fill(bytes.len());
}

#[test]
fn a_new_buffer_is_all_space() {
    let mut buffer = Buffer::with_capacity(16);
    assert_eq!(buffer.capacity(), 16);
    assert_eq!(buffer.available_data(), 0);
    assert_eq!(buffer.available_space(), 16);
    assert_eq!(buffer.data(), b"");
    assert_eq!(buffer.space().len(), 16);
}

#[test]
fn fill_commits_what_was_written_into_space() {
    let mut buffer = Buffer::with_capacity(16);
    put(&mut buffer, b"abc");
    assert_eq!(buffer.data(), b"abc");
    assert_eq!(buffer.available_data(), 3);
    assert_eq!(buffer.available_space(), 13);
    put(&mut buffer, b"defg");
    assert_eq!(buffer.data(), b"abcdefg");
    assert_eq!(buffer.available_space(), 9);
}

#[test]
fn fill_of_nothing_changes_nothing() {
    let mut buffer = Buffer::with_capacity(4);
    put(&mut buffer, b"ab");
    buffer.fill(0);
    assert_eq!(buffer.data(), b"ab");
    assert_eq!(buffer.available_space(), 2);
}

#[test]
fn consume_advances_the_read_cursor() {
    let mut buffer = Buffer::with_capacity(16);
    put(&mut buffer, b"abcdefg");
    assert_eq!(buffer.consume(3), Ok(()));
    assert_eq!(buffer.data(), b"defg");
    assert_eq!(buffer.available_space(), 9);
    assert_eq!(buffer.consume(4), Ok(()));
    assert_eq!(buffer.data(), b"");
    assert_eq!(buffer.consume(0), Ok(()));
}

#[test]
fn consume_beyond_the_data_fails_and_changes_nothing() {
    let mut buffer = Buffer::with_capacity(16);
    put(&mut buffer, b"abc");
    let before = buffer.clone();
    assert_eq!(buffer.consume(4), Err(BufferError::Overrun));
    assert_eq!(buffer, before);
    assert_eq!(buffer.data(), b"abc");
    assert_eq!(buffer.available_space(), 13);

    let mut empty = Buffer::with_capacity(0);
    assert_eq!(empty.consume(1), Err(BufferError::Overrun));
}

#[test]
fn data_is_what_was_written_since_the_last_consume() {
    let mut buffer = Buffer::with_capacity(8);
    put(&mut buffer, b"1234");
    buffer.consume(2).unwrap();
    put(&mut buffer, b"56");
    assert_eq!(buffer.data(), b"3456");
    buffer.consume(4).unwrap();
    put(&mut buffer, b"78");
    assert_eq!(buffer.data(), b"78");
}

#[test]
fn space_gives_up_consumed_bytes_when_none_is_left() {
    let mut buffer = Buffer::with_capacity(4);
    put(&mut buffer, b"abcd");
    buffer.consume(3).unwrap();
    assert_eq!(buffer.available_space(), 0);
    let len = buffer.space().len();
    assert_eq!(len, 3);
    assert_eq!(buffer.capacity(), 4);
    assert_eq!(buffer.data(), b"d");
    put(&mut buffer, b"efg");
    assert_eq!(buffer.data(), b"defg");
}

#[test]
fn space_grows_a_full_buffer_and_keeps_the_data() {
    let mut buffer = Buffer::with_capacity(4);
    put(&mut buffer, b"abcd");
    let len = buffer.space().len();
    assert_eq!(len, 4);
    assert_eq!(buffer.capacity(), 8);
    assert_eq!(buffer.data(), b"abcd");

    let mut none = Buffer::with_capacity(0);
    assert_eq!(none.space().len(), 1);
}

#[test]
fn reserve_keeps_a_buffer_with_room_as_it_is() {
    let mut buffer = Buffer::with_capacity(8);
    put(&mut buffer, b"abc");
    buffer.consume(1).unwrap();
    let before = buffer.clone();
    assert_eq!(buffer.reserve(5), Ok(()));
    assert_eq!(buffer, before);
}

#[test]
fn reserve_makes_room_behind_the_data() {
    let mut buffer = Buffer::with_capacity(8);
    put(&mut buffer, b"abcdefgh");
    buffer.consume(6).unwrap();
    assert_eq!(buffer.reserve(6), Ok(()));
    assert_eq!(buffer.capacity(), 8);
    assert_eq!(buffer.available_space(), 6);
    assert_eq!(buffer.data(), b"gh");
    assert_eq!(buffer.reserve(20), Ok(()));
    assert_eq!(buffer.capacity(), 22);
    assert_eq!(buffer.available_space(), 20);
    assert_eq!(buffer.data(), b"gh");
    assert_eq!(buffer.reserve(21), Ok(()));
    assert_eq!(buffer.capacity(), 44);
    assert_eq!(buffer.data(), b"gh");
}

#[test]
fn reserve_beyond_the_limit_fails_and_changes_nothing() {
    let mut buffer = Buffer::with_capacity(4);
    put(&mut buffer, b"ab");
    let before = buffer.clone();
    assert_eq!(buffer.reserve(MAX_CAPACITY - 1), Err(BufferError::CapacityExceeded));
    assert_eq!(buffer, before);
    assert_eq!(buffer.reserve(usize::MAX), Err(BufferError::CapacityExceeded));
    assert_eq!(buffer, before);
}

#[test]
fn a_limit_stops_the_growth() {
    let mut buffer = Buffer::with_limit(4, 6);
    assert_eq!(buffer.write(b"abcd"), Ok(()));
    assert_eq!(buffer.reserve(3), Err(BufferError::CapacityExceeded));
    assert_eq!(buffer.reserve(2), Ok(()));
    assert_eq!(buffer.capacity(), 6);
    assert_eq!(buffer.write(b"ef"), Ok(()));
    let before = buffer.clone();
    assert_eq!(buffer.write(b"g"), Err(BufferError::CapacityExceeded));
    assert_eq!(buffer, before);
    assert_eq!(buffer.space().len(), 0);
    assert_eq!(buffer.data(), b"abcdef");
    buffer.consume(5).unwrap();
    assert_eq!(buffer.write(b"ghijk"), Ok(()));
    assert_eq!(buffer.data(), b"fghijk");
    assert_eq!(buffer.capacity(), 6);

    let mut wide = Buffer::with_limit(8, 2);
    assert_eq!(wide.write(b"12345678"), Ok(()));
    assert_eq!(wide.write(b"9"), Err(BufferError::CapacityExceeded));
    assert_eq!(wide.capacity(), 8);
}

#[test]
fn write_appends_and_grows() {
    let mut buffer = Buffer::with_capacity(2);
    assert_eq!(buffer.write(b"hello"), Ok(()));
    assert_eq!(buffer.data(), b"hello");
    buffer.consume(2).unwrap();
    assert_eq!(buffer.write(b", world"), Ok(()));
    assert_eq!(buffer.data(), b"llo, world");
    assert_eq!(buffer.write(b""), Ok(()));
    assert_eq!(buffer.data(), b"llo, world");
}

#[test]
fn a_clone_holds_the_same_data() {
    let mut buffer = Buffer::with_capacity(8);
    put(&mut buffer, b"abc");
    buffer.consume(1).unwrap();
    let copy = buffer.clone();
    assert_eq!(copy.data(), b"bc");
    assert_eq!(copy.available_space(), 5);
    assert_eq!(copy, buffer);
}
