use check_port::ports::{parse_port, PortRange, MAX_TOKEN_LEN};

#[test]
fn parse_port_plain_number() {
    assert_eq!(parse_port("9000"), Ok(9000));
}

#[test]
fn parse_port_bounds() {
    assert_eq!(parse_port("1"), Ok(1));
    assert_eq!(parse_port("65535"), Ok(65535));
}

#[test]
fn parse_port_leading_plus_and_zeros() {
    assert_eq!(parse_port("+123"), Ok(123));
    assert_eq!(parse_port("007"), Ok(7));
}

#[test]
fn parse_port_zero_is_out_of_range() {
    assert_eq!(
        parse_port("0"),
        Err("port not in valid range 1-65535".to_string())
    );
}

#[test]
fn parse_port_above_range() {
    assert_eq!(
        parse_port("65536"),
        Err("port not in valid range 1-65535".to_string())
    );
    assert_eq!(
        parse_port("99999999999999999999"),
        Err("port not in valid range 1-65535".to_string())
    );
}

#[test]
fn parse_port_not_a_number() {
    assert_eq!(
        parse_port("abc"),
        Err("not a valid port number".to_string())
    );
    assert_eq!(parse_port(""), Err("not a valid port number".to_string()));
    assert_eq!(parse_port("+"), Err("not a valid port number".to_string()));
    assert_eq!(
        parse_port("90a0"),
        Err("not a valid port number".to_string())
    );
    assert_eq!(
        parse_port("-1"),
        Err("not a valid port number".to_string())
    );
}

#[test]
fn port_range_construction() {
    let r = PortRange::new(9000, 9002).unwrap();
    assert_eq!(r.from, 9000);
    assert_eq!(r.to, 9002);
    assert!(PortRange::new(0, 5).is_none());
    assert!(PortRange::new(10, 9).is_none());
    assert!(PortRange::new(7, 7).is_some());
}

#[test]
fn port_range_membership() {
    let r = PortRange::new(9000, 9002).unwrap();
    assert!(r.contains(9000));
    assert!(r.contains(9001));
    assert!(r.contains(9002));
    assert!(!r.contains(8999));
    assert!(!r.contains(9003));
}

#[test]
fn token_length_cap() {
    assert_eq!(MAX_TOKEN_LEN, 128);
}
