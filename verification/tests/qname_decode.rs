use byte_packet_buffer::byte_packet_buffer::BytePacketBuffer;
use byte_packet_buffer::byte_packet_buffer::BytePacketBufferError;

/// Writes `3 "www" 6 "google" 3 "com" 0` starting at `at`.
fn write_example_name(b: &mut BytePacketBuffer, at: usize) {
    let encoded: &[u8] = &[
        3, b'w', b'w', b'w', 6, b'g', b'o', b'o', b'g', b'l', b'e', 3, b'c', b'o', b'm', 0,
    ];
    for (i, &byte) in encoded.iter().enumerate() {
        b.buf[at + i] = byte;
    }
}

#[test]
fn plain_name_decodes_with_cursor_past_encoding() {
    let mut b = BytePacketBuffer::new();
    write_example_name(&mut b, 0);
    let mut out = String::new();
    b.read_qname(&mut out).unwrap();
    assert_eq!(out, "www.google.com");
    assert_eq!(b.pos(), 16);
}

#[test]
fn empty_name_decodes_to_nothing() {
    let mut b = BytePacketBuffer::new();
    // A single zero-length label: the name is empty, the cursor moves past it.
    let mut out = String::new();
    b.read_qname(&mut out).unwrap();
    assert_eq!(out, "");
    assert_eq!(b.pos(), 1);
}

#[test]
fn uppercase_labels_fold_to_lowercase() {
    let mut b = BytePacketBuffer::new();
    let encoded: &[u8] = &[3, b'W', b'W', b'W', 4, b'T', b'e', b'S', b't', 0];
    for (i, &byte) in encoded.iter().enumerate() {
        b.buf[i] = byte;
    }
    let mut out = String::new();
    b.read_qname(&mut out).unwrap();
    assert_eq!(out, "www.test");
}

#[test]
fn digits_and_hyphens_pass_unchanged() {
    let mut b = BytePacketBuffer::new();
    let encoded: &[u8] = &[5, b'a', b'-', b'1', b'.', b'Z', 0];
    for (i, &byte) in encoded.iter().enumerate() {
        b.buf[i] = byte;
    }
    let mut out = String::new();
    b.read_qname(&mut out).unwrap();
    assert_eq!(out, "a-1.z");
}

#[test]
fn name_appends_to_existing_output() {
    let mut b = BytePacketBuffer::new();
    write_example_name(&mut b, 0);
    let mut out = String::from("q: ");
    b.read_qname(&mut out).unwrap();
    assert_eq!(out, "q: www.google.com");
}

#[test]
fn pointer_reuses_earlier_name() {
    let mut b = BytePacketBuffer::new();
    write_example_name(&mut b, 0);
    // A second name at offset 20 consisting solely of a pointer to offset 0.
    b.buf[20] = 0xC0;
    b.buf[21] = 0x00;
    b.seek(20);
    let mut out = String::new();
    b.read_qname(&mut out).unwrap();
    assert_eq!(out, "www.google.com");
    // The cursor ends two bytes past the pointer, not past the chased target.
    assert_eq!(b.pos(), 22);
}

#[test]
fn pointer_after_labels_keeps_cursor_past_first_pointer() {
    let mut b = BytePacketBuffer::new();
    write_example_name(&mut b, 0);
    // "mail" followed by a pointer to "www.google.com" at offset 0.
    let encoded: &[u8] = &[4, b'm', b'a', b'i', b'l', 0xC0, 0x00];
    for (i, &byte) in encoded.iter().enumerate() {
        b.buf[40 + i] = byte;
    }
    b.seek(40);
    let mut out = String::new();
    b.read_qname(&mut out).unwrap();
    assert_eq!(out, "mail.www.google.com");
    assert_eq!(b.pos(), 47);
}

#[test]
fn pointer_offset_uses_fourteen_bits() {
    let mut b = BytePacketBuffer::new();
    // A name at offset 300 = 0x012C, reached through a pointer whose length
    // byte carries the offset's high six bits: 0xC1 0x2C.
    let encoded: &[u8] = &[3, b'a', b'b', b'c', 0];
    for (i, &byte) in encoded.iter().enumerate() {
        b.buf[300 + i] = byte;
    }
    b.buf[0] = 0xC1;
    b.buf[1] = 0x2C;
    let mut out = String::new();
    b.read_qname(&mut out).unwrap();
    assert_eq!(out, "abc");
    assert_eq!(b.pos(), 2);
}

#[test]
fn cyclic_pointers_hit_the_jump_limit() {
    let mut b = BytePacketBuffer::new();
    // Position 0 points to position 2, which points back to position 0.
    b.buf[0] = 0xC0;
    b.buf[1] = 0x02;
    b.buf[2] = 0xC0;
    b.buf[3] = 0x00;
    let mut out = String::new();
    assert_eq!(
        b.read_qname(&mut out),
        Err(BytePacketBufferError::JumpLimitExceeded)
    );
}

#[test]
fn five_jumps_pass_six_exceed_the_limit() {
    let mut b = BytePacketBuffer::new();
    // "a" at offset 0, then a chain of pointers each two bytes apart.
    b.buf[0] = 1;
    b.buf[1] = b'a';
    b.buf[2] = 0;
    let hops: &[(usize, u8)] = &[(10, 0), (12, 10), (14, 12), (16, 14), (18, 16), (20, 18)];
    for &(at, target) in hops {
        b.buf[at] = 0xC0;
        b.buf[at + 1] = target;
    }
    // Starting at offset 18 chases five pointers: allowed.
    b.seek(18);
    let mut out = String::new();
    b.read_qname(&mut out).unwrap();
    assert_eq!(out, "a");
    assert_eq!(b.pos(), 20);
    // Starting at offset 20 chases six: one too many.
    b.seek(20);
    let mut out2 = String::new();
    assert_eq!(
        b.read_qname(&mut out2),
        Err(BytePacketBufferError::JumpLimitExceeded)
    );
}

#[test]
fn label_running_past_capacity_fails() {
    let mut b = BytePacketBuffer::new();
    // A length byte near the end announcing more bytes than remain.
    b.buf[509] = 5;
    b.seek(509);
    let mut out = String::new();
    assert_eq!(
        b.read_qname(&mut out),
        Err(BytePacketBufferError::EndOfBuffer)
    );
}

#[test]
fn pointer_at_last_index_fails() {
    let mut b = BytePacketBuffer::new();
    // The pointer's second byte would sit at the capacity.
    b.buf[511] = 0xC0;
    b.seek(511);
    let mut out = String::new();
    assert_eq!(
        b.read_qname(&mut out),
        Err(BytePacketBufferError::EndOfBuffer)
    );
}

#[test]
fn name_starting_past_capacity_fails() {
    let mut b = BytePacketBuffer::new();
    b.seek(512);
    let mut out = String::new();
    assert_eq!(
        b.read_qname(&mut out),
        Err(BytePacketBufferError::EndOfBuffer)
    );
}

#[test]
fn decoding_twice_gives_identical_results() {
    let mut first = BytePacketBuffer::new();
    write_example_name(&mut first, 0);
    first.buf[30] = 0xC0;
    first.buf[31] = 0x00;
    let mut second = BytePacketBuffer::new();
    second.buf = first.buf;

    first.seek(30);
    second.seek(30);
    let mut out_first = String::new();
    let mut out_second = String::new();
    let r_first = first.read_qname(&mut out_first);
    let r_second = second.read_qname(&mut out_second);
    assert_eq!(r_first, r_second);
    assert_eq!(out_first, out_second);
    assert_eq!(first.pos(), second.pos());
}
