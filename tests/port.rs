use dns_rebinder::port_in_range;

#[test]
fn port_accepts_valid_numbers() {
    assert_eq!(port_in_range("53"), Ok(53));
    assert_eq!(port_in_range("2053"), Ok(2053));
    assert_eq!(port_in_range("65535"), Ok(65535));
    assert_eq!(port_in_range("1"), Ok(1));
}

#[test]
fn port_rejects_zero() {
    assert_eq!(port_in_range("0"), Err(String::from("Port not in range 1-65535")));
}

#[test]
fn port_rejects_non_numbers() {
    let e = port_in_range("dns").unwrap_err();
    assert!(e.starts_with("`dns` isn't a port number: "));
    let e = port_in_range("65536").unwrap_err();
    assert!(e.starts_with("`65536` isn't a port number: "));
    assert!(port_in_range("").is_err());
    assert!(port_in_range("-1").is_err());
}
