use mtu::error::{default_err, unlikely_err, MtuError};
use mtu::routesocket::check_result;
use mtu::windows::{interface_name, mtu_for_index, MibRow};

#[test]
fn max_mtu_is_a_result() {
    let rows = vec![MibRow { index: 3, mtu: 1500 }, MibRow { index: 1, mtu: u32::MAX }];
    assert_eq!(mtu_for_index(&rows, 1).unwrap(), 4_294_967_295);
    assert_eq!(mtu_for_index(&rows, 3).unwrap(), 1500);
}

#[test]
fn first_row_of_interface_decides() {
    let rows = vec![MibRow { index: 7, mtu: 1280 }, MibRow { index: 7, mtu: 1500 }];
    assert_eq!(mtu_for_index(&rows, 7).unwrap(), 1280);
}

#[test]
fn missing_row_is_error() {
    let rows = vec![MibRow { index: 3, mtu: 1500 }];
    assert!(matches!(mtu_for_index(&rows, 4), Err(MtuError::NotFound)));
    assert!(matches!(mtu_for_index(&Vec::new(), 4), Err(MtuError::NotFound)));
}

#[test]
fn interface_name_until_nul() {
    let mut buf = b"loopback_0".to_vec();
    buf.resize(256, 0);
    assert_eq!(interface_name(&buf).unwrap(), "loopback_0");
    assert!(matches!(interface_name(b"abc"), Err(MtuError::NotFound)));
    assert!(matches!(interface_name(&[0xc3, 0x28, 0]), Err(MtuError::InvalidName)));
}

#[test]
fn check_result_outcomes() {
    assert_eq!(check_result(12, 0).unwrap(), 12);
    assert_eq!(check_result(0, 0).unwrap(), 0);
    assert!(matches!(check_result(-1, 13), Err(MtuError::Os(13))));
    assert!(matches!(check_result(-2, 13), Err(MtuError::Unlikely(_))));
}

#[test]
fn error_messages() {
    assert_eq!(default_err().message(), "Local interface MTU not found");
    assert_eq!(unlikely_err("boom".to_string()).message(), "boom");
    assert!(matches!(default_err(), MtuError::NotFound));
}
