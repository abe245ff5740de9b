use shooting_range::codec::encode_command;

#[test]
fn encodes_seven_false() {
    assert_eq!(encode_command(7, false), b"7,false\n".to_vec());
}

#[test]
fn encodes_three_true() {
    assert_eq!(encode_command(3, true), b"3,true\n".to_vec());
}

#[test]
fn encodes_zero() {
    assert_eq!(encode_command(0, true), b"0,true\n".to_vec());
}

#[test]
fn encodes_multi_digit() {
    assert_eq!(encode_command(115200, false), b"115200,false\n".to_vec());
}

#[test]
fn encodes_negative() {
    assert_eq!(encode_command(-12, true), b"-12,true\n".to_vec());
}

#[test]
fn encodes_extremes() {
    assert_eq!(encode_command(i32::MAX, true), b"2147483647,true\n".to_vec());
    assert_eq!(encode_command(i32::MIN, false), b"-2147483648,false\n".to_vec());
}
