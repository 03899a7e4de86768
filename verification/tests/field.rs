use lib::bn254::{parse_sqrt_result, Fr};

fn reply(flag: u8) -> [u8; 33] {
    let mut buf = [0u8; 33];
    buf[0] = flag;
    for i in 1..33 {
        buf[i] = (i as u8) * 3;
    }
    buf
}

#[test]
fn flag_one_carries_the_square_root() {
    let buf = reply(1);
    let root = parse_sqrt_result(&buf).expect("flag 1 means a root exists");
    assert_eq!(&root.data[..], &buf[1..33]);
    assert_eq!(root.to_buffer(), buf[1..33].to_vec());
}

#[test]
fn other_flags_mean_no_square_root() {
    assert_eq!(parse_sqrt_result(&reply(0)), None);
    assert_eq!(parse_sqrt_result(&reply(2)), None);
    assert_eq!(parse_sqrt_result(&reply(0xff)), None);
}

#[test]
fn element_buffer_round_trips() {
    let mut data = [0u8; 32];
    data[0] = 0x30;
    data[31] = 0x01;
    let f = Fr::from_buffer(data);
    assert_eq!(f.data, data);
    assert_eq!(f.to_buffer(), data.to_vec());
    assert_eq!(Fr::from_buffer(data), f);
}
