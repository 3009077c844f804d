use wasm_sharding::buffer::RequestBuffer;
use wasm_sharding::error::ShardError;
use wasm_sharding::resolver::{
    condition_segment, decode_request, do_work, physical_table_name, Resolution, ShardConfig,
    ShardResolver, BUFFER_CAPACITY, SHARDING_COUNT,
};

fn request(target_names: &[u8], condition: &[u8]) -> Vec<u8> {
    let mut bytes = vec![target_names.len() as u8];
    bytes.extend_from_slice(target_names);
    bytes.push(condition.len() as u8);
    bytes.extend_from_slice(condition);
    bytes
}

fn buffer(bytes: &[u8]) -> RequestBuffer {
    RequestBuffer::from_bytes(bytes, BUFFER_CAPACITY).unwrap()
}

fn resolver(shard_count: u8) -> ShardResolver {
    ShardResolver::new(ShardConfig::new(shard_count).unwrap())
}

fn appended(buffer: &RequestBuffer, resolution: Resolution) -> Vec<u8> {
    buffer.as_slice()[resolution.offset..resolution.offset + resolution.length].to_vec()
}

#[test]
fn condition_round_trip_names_shard_one() {
    let bytes = request(b"", b"x,orders,7");
    let mut buf = buffer(&bytes);
    let resolution = resolver(3).resolve(&mut buf).unwrap();
    assert_eq!(appended(&buf, resolution), b"orders_1".to_vec());
    assert_eq!(resolution, Resolution { offset: bytes.len(), length: 8 });
}

#[test]
fn end_to_end_request_resolves_to_tbl_2() {
    let bytes = [
        0x00, 0x0C, b'u', b'n', b'u', b's', b'e', b'd', b',', b't', b'b', b'l', b',', b'5',
    ];
    assert_eq!(SHARDING_COUNT, 3);
    let mut buf = buffer(&bytes);
    let resolution = do_work(&mut buf).unwrap();
    assert_eq!(resolution.offset, 14);
    assert_eq!(resolution.length, 5);
    assert_eq!(appended(&buf, resolution), b"tbl_2".to_vec());
    assert_eq!(&buf.as_slice()[..14], &bytes[..]);
    assert_eq!(buf.len(), 19);
    assert_eq!(buf.capacity(), 1024);
}

#[test]
fn length_prefix_one_short_cuts_off_the_column_value() {
    // The condition is twelve bytes long, the prefix says eleven: the segment
    // ends behind the second comma, and the third field is empty.
    let bytes = [
        0x00, 0x0B, b'u', b'n', b'u', b's', b'e', b'd', b',', b't', b'b', b'l', b',', b'5',
    ];
    let mut buf = buffer(&bytes);
    assert_eq!(condition_segment(&buf), Ok(&b"unused,tbl,"[..]));
    assert_eq!(do_work(&mut buf), Err(ShardError::InvalidColumnValue));
    assert_eq!(buf.as_slice(), &bytes[..]);
}

#[test]
fn route_does_not_write() {
    let bytes = request(b"", b"x,orders,7");
    let buf = buffer(&bytes);
    assert_eq!(resolver(3).route(&buf), Ok(b"orders_1".to_vec()));
    assert_eq!(buf.as_slice(), &bytes[..]);
}

#[test]
fn identical_buffers_resolve_alike() {
    let bytes = request(b"a,b", b"k,users,200");
    let mut first = buffer(&bytes);
    let mut second = buffer(&bytes);
    let one = resolver(7).resolve(&mut first).unwrap();
    let two = resolver(7).resolve(&mut second).unwrap();
    assert_eq!(one, two);
    assert_eq!(first.as_slice(), second.as_slice());
    assert_eq!(appended(&first, one), b"users_4".to_vec());
}

#[test]
fn resolved_buffer_resolves_to_the_same_name_again() {
    let bytes = request(b"", b"x,orders,7");
    let mut buf = buffer(&bytes);
    let one = resolver(3).resolve(&mut buf).unwrap();
    let name = appended(&buf, one);
    let two = resolver(3).resolve(&mut buf).unwrap();
    assert_eq!(appended(&buf, two), name);
    assert_eq!(two.offset, one.offset + one.length);
}

#[test]
fn target_names_segment_is_skipped() {
    let bytes = request(b"t_0,t_1,t_2", b"id,t,4");
    let buf = buffer(&bytes);
    assert_eq!(condition_segment(&buf), Ok(&b"id,t,4"[..]));
    assert_eq!(resolver(3).route(&buf), Ok(b"t_1".to_vec()));
}

#[test]
fn decoded_condition_names_its_fields() {
    let buf = buffer(&request(b"", b"unused,tbl,5,more"));
    let condition = decode_request(&buf).unwrap();
    assert_eq!(condition.unused, b"unused".to_vec());
    assert_eq!(condition.logic_table, b"tbl".to_vec());
    assert_eq!(condition.column_value, 5);
}

#[test]
fn column_value_zero_and_multiples_fall_into_shard_zero() {
    for value in ["0", "3", "6", "252", "255"] {
        let condition = format!("x,t,{}", value);
        let buf = buffer(&request(b"", condition.as_bytes()));
        assert_eq!(resolver(3).route(&buf), Ok(b"t_0".to_vec()), "value {}", value);
    }
}

#[test]
fn shard_index_may_take_three_digits() {
    let buf = buffer(&request(b"", b"x,t,254"));
    assert_eq!(resolver(255).route(&buf), Ok(b"t_254".to_vec()));
    let buf = buffer(&request(b"", b"x,t,99"));
    assert_eq!(resolver(100).route(&buf), Ok(b"t_99".to_vec()));
}

#[test]
fn table_name_may_be_empty_or_not_ascii() {
    let buf = buffer(&request(b"", b"x,,1"));
    assert_eq!(resolver(3).route(&buf), Ok(b"_1".to_vec()));
    let buf = buffer(&request(b"", "x,t\u{e9}\u{4e2d}\u{1f600},8".as_bytes()));
    assert_eq!(resolver(3).route(&buf), Ok("t\u{e9}\u{4e2d}\u{1f600}_2".as_bytes().to_vec()));
}

#[test]
fn empty_payload_is_truncated() {
    let mut buf = buffer(&[]);
    assert_eq!(do_work(&mut buf), Err(ShardError::TruncatedBuffer));
    assert_eq!(buf.len(), 0);
}

#[test]
fn missing_condition_length_is_truncated() {
    assert_eq!(do_work(&mut buffer(&[0])), Err(ShardError::TruncatedBuffer));
    assert_eq!(do_work(&mut buffer(&[2, b'a', b'b'])), Err(ShardError::TruncatedBuffer));
    assert_eq!(do_work(&mut buffer(&[5, b'a'])), Err(ShardError::TruncatedBuffer));
}

#[test]
fn short_condition_is_truncated() {
    let mut bytes = request(b"", b"x,t,1");
    bytes[1] = 6;
    let mut buf = buffer(&bytes);
    assert_eq!(do_work(&mut buf), Err(ShardError::TruncatedBuffer));
    assert_eq!(buf.as_slice(), &bytes[..]);
}

#[test]
fn malformed_utf8_is_refused() {
    let mut buf = buffer(&request(b"", &[b'x', b',', 0xff, b',', b'1']));
    assert_eq!(do_work(&mut buf), Err(ShardError::InvalidUtf8));
    let mut buf = buffer(&request(b"", &[0xc3]));
    assert_eq!(do_work(&mut buf), Err(ShardError::InvalidUtf8));
}

#[test]
fn fewer_than_three_fields_is_a_missing_field() {
    for condition in [&b""[..], b"x", b"x,t", b",", b"7"] {
        let bytes = request(b"", condition);
        let mut buf = buffer(&bytes);
        assert_eq!(do_work(&mut buf), Err(ShardError::MissingField));
        assert_eq!(buf.as_slice(), &bytes[..]);
    }
}

#[test]
fn bad_column_value_is_refused() {
    for condition in [
        &b"x,t,"[..],
        b"x,t,abc",
        b"x,t,256",
        b"x,t,-1",
        b"x,t, 1",
        b"x,t,1 ",
        b"x,t,+",
        b"x,t,1.0",
        b"x,t,1000000000000000000000",
    ] {
        let mut buf = buffer(&request(b"", condition));
        assert_eq!(do_work(&mut buf), Err(ShardError::InvalidColumnValue));
    }
}

#[test]
fn name_that_does_not_fit_overflows() {
    let bytes = request(b"", b"x,orders,7");
    for capacity in bytes.len()..bytes.len() + 8 {
        let mut buf = RequestBuffer::from_bytes(&bytes, capacity).unwrap();
        assert_eq!(resolver(3).resolve(&mut buf), Err(ShardError::BufferOverflow));
        assert_eq!(buf.as_slice(), &bytes[..]);
        assert_eq!(buf.capacity(), capacity);
    }
    let mut buf = RequestBuffer::from_bytes(&bytes, bytes.len() + 8).unwrap();
    let resolution = resolver(3).resolve(&mut buf).unwrap();
    assert_eq!(appended(&buf, resolution), b"orders_1".to_vec());
    assert_eq!(buf.len(), buf.capacity());
}

#[test]
fn full_default_buffer_overflows() {
    let mut bytes = request(&[b'z'; 255], &[b'a'; 255]);
    bytes[256 + 1 + 1] = b',';
    bytes[256 + 1 + 3] = b',';
    bytes[256 + 1 + 4] = b'1';
    bytes.truncate(256 + 1 + 5);
    bytes[256] = 5;
    bytes.resize(BUFFER_CAPACITY - 3, 0);
    let mut buf = buffer(&bytes);
    assert_eq!(resolver(3).route(&buf), Ok(b"a_1".to_vec()));
    let resolution = do_work(&mut buf).unwrap();
    assert_eq!(resolution, Resolution { offset: 1021, length: 3 });
    assert_eq!(do_work(&mut buf), Err(ShardError::BufferOverflow));
    assert_eq!(buf.len(), 1024);
}

#[test]
fn zero_shards_is_no_configuration() {
    assert_eq!(ShardConfig::new(0), None);
    assert_eq!(ShardConfig::new(1).unwrap().shard_count(), 1);
    assert_eq!(ShardConfig::default().shard_count(), 3);
}

#[test]
fn physical_table_name_joins_with_an_underscore() {
    assert_eq!(physical_table_name(b"orders", 1), b"orders_1".to_vec());
    assert_eq!(physical_table_name(b"", 0), b"_0".to_vec());
    assert_eq!(physical_table_name(b"a_b", 255), b"a_b_255".to_vec());
}

#[test]
fn routed_name_is_well_formed_text() {
    let buf = buffer(&request(b"", "x,caf\u{e9},200".as_bytes()));
    let name = resolver(9).route(&buf).unwrap();
    assert_eq!(String::from_utf8(name), Ok("caf\u{e9}_2".to_string()));
}
