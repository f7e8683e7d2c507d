use pqcdump::kexinit::{parse_ssh_kexinit, read_name_list_owned, read_u32};

fn name_list(names: &str) -> Vec<u8> {
    let mut bytes = (names.len() as u32).to_be_bytes().to_vec();
    bytes.extend_from_slice(names.as_bytes());
    bytes
}

fn announcement(first: &[u8]) -> Vec<u8> {
    let mut bytes = vec![0, 0, 1, 0, 4, 20];
    bytes.extend_from_slice(&[7; 16]);
    bytes.extend_from_slice(first);
    for _ in 0..9 {
        bytes.extend_from_slice(&name_list("none"));
    }
    bytes
}

#[test]
fn read_u32_takes_four_bytes_highest_first() {
    let bytes = [0x01, 0x02, 0x03, 0x04, 0xff];
    let mut data: &[u8] = &bytes;
    assert_eq!(read_u32(&mut data), Some(0x0102_0304));
    assert_eq!(data, &[0xff]);
}

#[test]
fn read_u32_reaches_the_largest_number() {
    let mut data: &[u8] = &[0xff, 0xff, 0xff, 0xff];
    assert_eq!(read_u32(&mut data), Some(u32::MAX));
    assert!(data.is_empty());
}

#[test]
fn read_u32_leaves_short_data_alone() {
    let mut data: &[u8] = &[1, 2, 3];
    assert_eq!(read_u32(&mut data), None);
    assert_eq!(data, &[1, 2, 3]);
}

#[test]
fn name_list_is_split_at_commas() {
    let mut bytes = name_list("a,bb,,c");
    bytes.push(9);
    let mut data: &[u8] = &bytes;
    let names = read_name_list_owned(&mut data).unwrap();
    assert_eq!(names, vec!["a", "bb", "", "c"]);
    assert_eq!(data, &[9]);
}

#[test]
fn empty_name_list_is_one_empty_name() {
    let mut data: &[u8] = &[0, 0, 0, 0];
    assert_eq!(read_name_list_owned(&mut data), Some(vec![String::new()]));
    assert!(data.is_empty());
}

#[test]
fn name_list_may_hold_any_utf8() {
    let bytes = name_list("schl\u{fc}ssel,\u{1f511}");
    let mut data: &[u8] = &bytes;
    let names = read_name_list_owned(&mut data).unwrap();
    assert_eq!(names, vec!["schl\u{fc}ssel", "\u{1f511}"]);
}

#[test]
fn name_list_without_count_is_left_alone() {
    let mut data: &[u8] = &[0, 0];
    assert_eq!(read_name_list_owned(&mut data), None);
    assert_eq!(data, &[0, 0]);
}

#[test]
fn name_list_that_is_too_short_loses_its_count() {
    let mut data: &[u8] = &[0, 0, 0, 3, b'a', b'b'];
    assert_eq!(read_name_list_owned(&mut data), None);
    assert_eq!(data, b"ab");
}

#[test]
fn name_list_that_is_no_utf8_is_taken_off() {
    let mut data: &[u8] = &[0, 0, 0, 2, 0xc3, 0x28, 5];
    assert_eq!(read_name_list_owned(&mut data), None);
    assert_eq!(data, &[5]);
}

#[test]
fn announcement_is_read() {
    assert!(parse_ssh_kexinit(&announcement(&name_list("curve25519-sha256"))).is_some());
}

#[test]
fn announcement_with_padding_is_read() {
    let mut bytes = announcement(&name_list("curve25519-sha256"));
    bytes.extend_from_slice(&[0; 40]);
    assert!(parse_ssh_kexinit(&bytes).is_some());
}

#[test]
fn announcement_may_have_any_lengths_and_cookie() {
    let mut bytes = announcement(&name_list("curve25519-sha256"));
    for i in 0..22 {
        if i != 5 {
            bytes[i] = 0xee;
        }
    }
    assert!(parse_ssh_kexinit(&bytes).is_some());
}

#[test]
fn no_prefix_of_an_announcement_is_read() {
    let bytes = announcement(&name_list("curve25519-sha256"));
    for len in 0..bytes.len() {
        assert!(parse_ssh_kexinit(&bytes[..len]).is_none());
    }
}

#[test]
fn other_message_is_not_read() {
    let mut bytes = announcement(&name_list("curve25519-sha256"));
    bytes[5] = 21;
    assert!(parse_ssh_kexinit(&bytes).is_none());
}

#[test]
fn announcement_with_a_list_that_is_no_utf8_is_not_read() {
    assert!(parse_ssh_kexinit(&announcement(&[0, 0, 0, 1, 0x80])).is_none());
}

#[test]
fn announcement_without_its_last_list_is_not_read() {
    let bytes = announcement(&name_list("a"));
    assert!(parse_ssh_kexinit(&bytes[..bytes.len() - 8]).is_none());
}

#[test]
fn short_payload_is_not_read_whatever_it_holds() {
    for len in 0..22 {
        assert!(parse_ssh_kexinit(&vec![20; len]).is_none());
    }
}
