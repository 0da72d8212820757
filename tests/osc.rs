use rust_image_fiddler::osc::{encode_write, osc_address, register_name, OSC_PREFIX};
use rust_image_fiddler::transmit::{Register, RegisterWrite};

fn osc_string(s: &str) -> Vec<u8> {
    let mut v = s.as_bytes().to_vec();
    v.push(0);
    while v.len() % 4 != 0 {
        v.push(0);
    }
    v
}

#[test]
fn register_names() {
    assert_eq!(register_name(Register::Clk), "CLK");
    assert_eq!(register_name(Register::Reset), "Reset");
    assert_eq!(register_name(Register::Data(0)), "V0");
    assert_eq!(register_name(Register::Data(9)), "V9");
    assert_eq!(register_name(Register::Data(10)), "VA");
    assert_eq!(register_name(Register::Data(23)), "VN");
}

#[test]
fn encode_int_write() {
    let bytes = encode_write(OSC_PREFIX, RegisterWrite::Int(Register::Data(11), 300));
    let mut expect = osc_string("/avatar/parameters/PixelSendCRT/VB");
    expect.extend(osc_string(",i"));
    expect.extend(300i32.to_be_bytes());
    assert_eq!(bytes, expect);
}

#[test]
fn encode_bool_write() {
    let bytes = encode_write("/dev", RegisterWrite::Bool(Register::Clk, false));
    let mut expect = osc_string("/dev/CLK");
    expect.extend(osc_string(",F"));
    assert_eq!(bytes, expect);
}

#[test]
fn address_joins_prefix_and_register() {
    assert_eq!(osc_address("/a/b", "VN"), "/a/b/VN");
    assert_eq!(osc_address("", "CLK"), "/CLK");
}

#[test]
fn encode_negative_int_write() {
    let bytes = encode_write("/p", RegisterWrite::Int(Register::Data(2), -2));
    let mut expect = osc_string("/p/V2");
    expect.extend(osc_string(",i"));
    expect.extend([0xFF, 0xFF, 0xFF, 0xFE]);
    assert_eq!(bytes, expect);
}
