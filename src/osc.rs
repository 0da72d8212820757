//! Encoding of register writes as OSC messages, one datagram each.
use crate::rle::FRAME_SIZE;
use crate::transmit::{Register, RegisterWrite};
use vstd::prelude::*;
use vstd::string::StringExecFns;
use vstd::utf8::encode_utf8;

verus! {

/// Address prefix under which the device's registers are found.
pub const OSC_PREFIX: &'static str = "/avatar/parameters/PixelSendCRT";

/// `rosc::OscError`, the error type of rosc's encoder.
#[verifier::external_type_specification]
#[verifier::external_body]
pub struct ExOscError(rosc::OscError);

/// The single argument of a register message.
#[derive(Clone, Copy, PartialEq, Eq, Structural, Debug)]
pub enum OscArg {
    Int(i32),
    Bool(bool),
}

/// An OSC string: the bytes, then one to four zero bytes so that the length
/// is a multiple of four.
pub open spec fn osc_padded(b: Seq<u8>) -> Seq<u8> {
    b + Seq::new((4 - b.len() % 4) as nat, |_i: int| 0u8)
}

/// The four big-endian bytes of an `i32` in two's complement.
pub open spec fn be_bytes(i: i32) -> Seq<u8> {
    let u: int = if i < 0 {
        i + 0x1_0000_0000
    } else {
        i as int
    };
    seq![(u / 0x100_0000) as u8, ((u / 0x1_0000) % 256) as u8, ((u / 256) % 256) as u8, (u % 256) as u8]
}

/// The bytes of the OSC message to address `addr` with the one argument
/// `arg`: the padded address, the padded type tag string (`,i`, `,T` or
/// `,F`), then the integer's four big-endian bytes (a boolean has none).
pub open spec fn osc_message_bytes(addr: Seq<char>, arg: OscArg) -> Seq<u8> {
    osc_padded(encode_utf8(addr)) + match arg {
        OscArg::Int(i) => seq![44u8, 105u8, 0u8, 0u8] + be_bytes(i),
        OscArg::Bool(b) => seq![44u8, if b { 84u8 } else { 70u8 }, 0u8, 0u8],
    }
}

/// Relies on `rosc::encoder::encode` of a message packet: it returns `Ok`
/// for every message (its source writes into a `Vec`, which cannot fail).
/// Its `encode_message` writes the address with `encode_string_into` (the
/// UTF-8 bytes, zero-padded to a multiple of four with at least one zero),
/// then `,` and the type tag (`i`, `T` or `F`) padded to a multiple of four,
/// then the argument's data (`to_be_bytes` for an `i32`, nothing for a
/// boolean).
#[verifier::external_body]
fn osc_encode(addr: String, arg: OscArg) -> (r: Result<Vec<u8>, rosc::OscError>)
    ensures
        r.is_ok(),
        r.is_ok() ==> r.unwrap()@ == osc_message_bytes(addr@, arg),
{
    let arg = match arg {
        OscArg::Int(i) => rosc::OscType::Int(i),
        OscArg::Bool(b) => rosc::OscType::Bool(b),
    };
    rosc::encoder::encode(
        &rosc::OscPacket::Message(rosc::OscMessage { addr, args: vec![arg] }),
    )
}

/// The OSC address of register `var` under `prefix`: `prefix/var`.
pub open spec fn register_address(prefix: Seq<char>, var: Seq<char>) -> Seq<char> {
    prefix + seq!['/'] + var
}

/// Builds the address `prefix/var`.
pub fn osc_address(prefix: &str, var: &str) -> (r: String)
    ensures
        r@ == register_address(prefix@, var@),
{
    let mut addr = String::from_str(prefix);
    proof {
        reveal_strlit("/");
    }
    addr.append("/");
    addr.append(var);
    addr
}

/// Characters that name the bytes of a register frame, in order.
pub open spec fn frame_digits() -> Seq<char> {
    seq![
        '0', '1', '2', '3', '4', '5', '6', '7', '8', '9', 'A', 'B', 'C', 'D', 'E', 'F', 'G', 'H', 'I', 'J',
        'K', 'L', 'M', 'N',
    ]
}

/// The name of a register: `CLK`, `Reset`, or `V` followed by the frame
/// byte's digit.
pub open spec fn register_var(reg: Register) -> Seq<char> {
    match reg {
        Register::Clk => seq!['C', 'L', 'K'],
        Register::Reset => seq!['R', 'e', 's', 'e', 't'],
        Register::Data(n) => seq!['V', frame_digits()[n as int]],
    }
}

/// Whether a register exists on the device.
pub open spec fn register_exists(reg: Register) -> bool {
    match reg {
        Register::Data(n) => n < FRAME_SIZE,
        _ => true,
    }
}

/// The name of a register.
pub fn register_name(reg: Register) -> (r: &'static str)
    requires
        register_exists(reg),
    ensures
        r@ == register_var(reg),
{
    match reg {
        Register::Clk => {
            proof {
                reveal_strlit("CLK");
            }
            "CLK"
        },
        Register::Reset => {
            proof {
                reveal_strlit("Reset");
            }
            "Reset"
        },
        Register::Data(n) => data_register_name(n),
    }
}

fn data_register_name(n: u8) -> (r: &'static str)
    requires
        n < FRAME_SIZE,
    ensures
        r@ == seq!['V', frame_digits()[n as int]],
{
    proof {
        reveal_strlit("V0");
        reveal_strlit("V1");
        reveal_strlit("V2");
        reveal_strlit("V3");
        reveal_strlit("V4");
        reveal_strlit("V5");
        reveal_strlit("V6");
        reveal_strlit("V7");
        reveal_strlit("V8");
        reveal_strlit("V9");
        reveal_strlit("VA");
        reveal_strlit("VB");
        reveal_strlit("VC");
        reveal_strlit("VD");
        reveal_strlit("VE");
        reveal_strlit("VF");
        reveal_strlit("VG");
        reveal_strlit("VH");
        reveal_strlit("VI");
        reveal_strlit("VJ");
        reveal_strlit("VK");
        reveal_strlit("VL");
        reveal_strlit("VM");
        reveal_strlit("VN");
    }
    let r = match n {
        0 => "V0",
        1 => "V1",
        2 => "V2",
        3 => "V3",
        4 => "V4",
        5 => "V5",
        6 => "V6",
        7 => "V7",
        8 => "V8",
        9 => "V9",
        10 => "VA",
        11 => "VB",
        12 => "VC",
        13 => "VD",
        14 => "VE",
        15 => "VF",
        16 => "VG",
        17 => "VH",
        18 => "VI",
        19 => "VJ",
        20 => "VK",
        21 => "VL",
        22 => "VM",
        _ => "VN",
    };
    proof {
        assert(r@ =~= seq!['V', frame_digits()[n as int]]);
    }
    r
}

/// The register a write goes to.
pub open spec fn write_register(w: RegisterWrite) -> Register {
    match w {
        RegisterWrite::Bool(reg, _) => reg,
        RegisterWrite::Int(reg, _) => reg,
    }
}

/// The argument a write carries.
pub open spec fn write_arg(w: RegisterWrite) -> OscArg {
    match w {
        RegisterWrite::Bool(_, b) => OscArg::Bool(b),
        RegisterWrite::Int(_, i) => OscArg::Int(i),
    }
}

/// The datagram that performs the register write `w` under `prefix`.
pub fn encode_write(prefix: &str, w: RegisterWrite) -> (r: Vec<u8>)
    requires
        register_exists(write_register(w)),
    ensures
        r@ == osc_message_bytes(register_address(prefix@, register_var(write_register(w))), write_arg(w)),
{
    let (reg, arg) = match w {
        RegisterWrite::Bool(reg, b) => (reg, OscArg::Bool(b)),
        RegisterWrite::Int(reg, i) => (reg, OscArg::Int(i)),
    };
    let addr = osc_address(prefix, register_name(reg));
    match osc_encode(addr, arg) {
        Ok(bytes) => bytes,
        Err(_) => Vec::new(),
    }
}

} // verus!
