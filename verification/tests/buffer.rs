use td_rp::Buffer;

#[test]
fn new_buffer_is_empty() {
    let buffer = Buffer::new();
    assert_eq!(buffer.len(), 0);
    assert_eq!(buffer.get_rpos(), 0);
    assert_eq!(buffer.get_wpos(), 0);
    assert!(buffer.get_data().is_empty());
}

#[test]
fn write_then_read_moves_cursors() {
    let mut buffer = Buffer::new();
    assert_eq!(buffer.write(&[1, 2, 3, 4, 5]), 5);
    let mut out = [0u8; 3];
    assert_eq!(buffer.read(&mut out), 3);
    assert_eq!(out, [1, 2, 3]);
    assert_eq!(buffer.get_rpos(), 3);
    assert_eq!(buffer.get_wpos(), 5);
    assert_eq!(buffer.len(), 5);
}

#[test]
fn write_of_nothing_changes_nothing() {
    let mut buffer = Buffer::new();
    buffer.write(&[7, 8]);
    assert_eq!(buffer.write(&[]), 0);
    assert_eq!(buffer.get_data(), &vec![7, 8]);
    assert_eq!(buffer.get_wpos(), 2);
    assert_eq!(buffer.get_rpos(), 0);
}

#[test]
fn read_is_short_when_few_bytes_are_left() {
    let mut buffer = Buffer::new();
    buffer.write(&[1, 2]);
    let mut out = [9u8; 4];
    assert_eq!(buffer.read(&mut out), 2);
    assert_eq!(out, [1, 2, 9, 9]);
    assert_eq!(buffer.get_rpos(), 2);
}

#[test]
fn read_of_exhausted_buffer_gives_nothing() {
    let mut buffer = Buffer::new();
    buffer.write(&[1, 2]);
    let mut out = [0u8; 2];
    assert_eq!(buffer.read(&mut out), 2);
    let mut more = [5u8; 2];
    assert_eq!(buffer.read(&mut more), 0);
    assert_eq!(more, [5, 5]);
    assert_eq!(buffer.get_rpos(), 2);
}

#[test]
fn read_into_no_room_gives_nothing() {
    let mut buffer = Buffer::new();
    buffer.write(&[1, 2]);
    let mut out: [u8; 0] = [];
    assert_eq!(buffer.read(&mut out), 0);
    assert_eq!(buffer.get_rpos(), 0);
}

#[test]
fn read_stops_at_the_write_cursor() {
    let mut buffer = Buffer::new();
    buffer.write(&[1, 2, 3, 4]);
    buffer.set_wpos(2);
    let mut out = [0u8; 4];
    assert_eq!(buffer.read(&mut out), 2);
    assert_eq!(out, [1, 2, 0, 0]);
}

#[test]
fn write_at_an_earlier_cursor_overwrites() {
    let mut buffer = Buffer::new();
    buffer.write(&[1, 2, 3, 4]);
    buffer.set_wpos(1);
    assert_eq!(buffer.write(&[9, 8]), 2);
    assert_eq!(buffer.get_data(), &vec![1, 9, 8, 4]);
    assert_eq!(buffer.get_wpos(), 3);
    assert_eq!(buffer.write(&[7, 6, 5]), 3);
    assert_eq!(buffer.get_data(), &vec![1, 9, 8, 7, 6, 5]);
    assert_eq!(buffer.get_wpos(), 6);
}

#[test]
fn set_rpos_rescans() {
    let mut buffer = Buffer::new();
    buffer.write(&[1, 2, 3]);
    let mut out = [0u8; 3];
    buffer.read(&mut out);
    buffer.set_rpos(1);
    assert_eq!(buffer.get_rpos(), 1);
    let mut again = [0u8; 2];
    assert_eq!(buffer.read(&mut again), 2);
    assert_eq!(again, [2, 3]);
}

#[test]
fn drain_removes_the_front_and_moves_cursors() {
    let mut buffer = Buffer::new();
    buffer.write(&[1, 2, 3, 4, 5, 6]);
    let mut out = [0u8; 2];
    buffer.read(&mut out);
    buffer.drain(4);
    assert_eq!(buffer.get_data(), &vec![5, 6]);
    assert_eq!(buffer.get_rpos(), 0);
    assert_eq!(buffer.get_wpos(), 2);
}

#[test]
fn drain_of_more_than_there_is_empties() {
    let mut buffer = Buffer::new();
    buffer.write(&[1, 2, 3]);
    let mut out = [0u8; 3];
    buffer.read(&mut out);
    buffer.drain(10);
    assert_eq!(buffer.len(), 0);
    assert_eq!(buffer.get_rpos(), 0);
    assert_eq!(buffer.get_wpos(), 0);
}

#[test]
fn drain_collect_returns_what_it_removed() {
    let mut buffer = Buffer::new();
    buffer.write(&[1, 2, 3, 4, 5]);
    let mut out = [0u8; 3];
    buffer.read(&mut out);
    let removed = buffer.drain_collect(2);
    assert_eq!(removed, vec![1, 2]);
    assert_eq!(buffer.get_data(), &vec![3, 4, 5]);
    assert_eq!(buffer.get_rpos(), 1);
    assert_eq!(buffer.get_wpos(), 3);
    let rest = buffer.drain_collect(9);
    assert_eq!(rest, vec![3, 4, 5]);
    assert_eq!(buffer.len(), 0);
}

#[test]
fn drain_keeps_a_following_message() {
    let mut buffer = Buffer::new();
    buffer.write(&[1, 2, 3]);
    buffer.write(&[4, 5]);
    let mut out = [0u8; 3];
    buffer.read(&mut out);
    buffer.drain(3);
    let mut next = [0u8; 2];
    assert_eq!(buffer.read(&mut next), 2);
    assert_eq!(next, [4, 5]);
}

#[test]
fn clear_empties_and_resets() {
    let mut buffer = Buffer::new();
    buffer.write(&[1, 2, 3]);
    let mut out = [0u8; 1];
    buffer.read(&mut out);
    buffer.clear();
    assert_eq!(buffer.len(), 0);
    assert_eq!(buffer.get_rpos(), 0);
    assert_eq!(buffer.get_wpos(), 0);
    buffer.write(&[9]);
    assert_eq!(buffer.get_data(), &vec![9]);
}
