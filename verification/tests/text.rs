use pqcdump::text::{decimal_text, endpoint_text, push_decimal, split_names};

#[test]
fn numbers_are_written_without_leading_zeros() {
    assert_eq!(decimal_text(0), "0");
    assert_eq!(decimal_text(9), "9");
    assert_eq!(decimal_text(10), "10");
    assert_eq!(decimal_text(1205), "1205");
    assert_eq!(decimal_text(u16::MAX), "65535");
}

#[test]
fn number_is_appended() {
    let mut s = String::from("id ");
    push_decimal(&mut s, 443);
    assert_eq!(s, "id 443");
}

#[test]
fn endpoint_joins_address_and_port() {
    assert_eq!(endpoint_text("192.0.2.1", 22), "192.0.2.1:22");
    assert_eq!(endpoint_text("2001:db8::1", 22), "2001:db8::1:22");
}

#[test]
fn endpoints_of_different_ports_differ() {
    assert_ne!(endpoint_text("192.0.2.1", 2), endpoint_text("192.0.2.1", 22));
    assert_ne!(endpoint_text("2001:db8::1", 22), endpoint_text("2001:db8::", 122));
}

#[test]
fn split_and_join_go_back_and_forth() {
    for text in ["", ",", "a", "a,b", ",a,,b,"] {
        let pieces = split_names(text);
        assert!(pieces.iter().all(|p| !p.contains(',')));
        assert_eq!(pieces.join(","), text);
    }
    assert_eq!(split_names("x,y,z"), vec!["x", "y", "z"]);
}
