//! The address that a listener binds: the loopback interface and a port.

use vstd::prelude::*;
use vstd::string::*;

verus! {

/// The characters of the decimal digit `d`.
pub open spec fn digit_text(d: nat) -> Seq<char> {
    seq![((48 + d) as u8) as char]
}

/// A number written in decimal, without leading zeros.
pub open spec fn decimal_text(n: nat) -> Seq<char>
    decreases n,
{
    if n < 10 {
        digit_text(n)
    } else {
        decimal_text(n / 10) + digit_text(n % 10)
    }
}

/// The digit `d` as text.
fn digit(d: u16) -> (text: &'static str)
    requires
        d < 10,
    ensures
        text@ == digit_text(d as nat),
{
    proof {
        reveal_strlit("0");
        reveal_strlit("1");
        reveal_strlit("2");
        reveal_strlit("3");
        reveal_strlit("4");
        reveal_strlit("5");
        reveal_strlit("6");
        reveal_strlit("7");
        reveal_strlit("8");
        reveal_strlit("9");
    }
    let text: &'static str = match d {
        0 => "0",
        1 => "1",
        2 => "2",
        3 => "3",
        4 => "4",
        5 => "5",
        6 => "6",
        7 => "7",
        8 => "8",
        _ => "9",
    };
    assert(text@ =~= digit_text(d as nat));
    text
}

/// Writes `n` in decimal.
pub fn decimal(n: u16) -> (text: String)
    ensures
        text@ == decimal_text(n as nat),
    decreases n,
{
    if n < 10 {
        digit(n).to_owned()
    } else {
        let mut text: String = decimal(n / 10);
        text.append(digit(n % 10));
        text
    }
}

/// The loopback address `127.0.0.1:<port>`.
pub open spec fn address_text(port: u16) -> Seq<char> {
    "127.0.0.1:"@ + decimal_text(port as nat)
}

/// The address on which the listener for `port` binds: the loopback interface
/// only.
pub fn listen_address(port: u16) -> (address: String)
    ensures
        address@ == address_text(port),
{
    let mut address: String = "127.0.0.1:".to_owned();
    let digits: String = decimal(port);
    address.append(digits.as_str());
    address
}

} // verus!
