pub mod dummy;
pub mod loopback;

use vstd::prelude::*;
use vstd::string::StringExecFns;

verus! {

/// The first real-time signal.
pub const SIGRTMIN: i32 = 34;

/// Device IRQs are numbered from the signal after the first real-time one.
pub const INTR_IRQ_BASE: i32 = SIGRTMIN + 1;

/// The hang-up signal, which stops the interrupt thread.
pub const INTR_IRQ_TERMINATE: i32 = 1;

/// The user signal reserved for soft-IRQ wake-ups.
pub const INTR_IRQ_SOFTIRQ: i32 = 10;

} // verus!

verus! {

/// The decimal digit character for `d < 10`.
pub open spec fn digit_char(d: nat) -> char {
    seq!['0', '1', '2', '3', '4', '5', '6', '7', '8', '9'][d as int]
}

/// Decimal digits of `n`, most significant first, without leading zeros.
pub open spec fn decimal(n: nat) -> Seq<char>
    decreases n,
{
    if n < 10 {
        seq![digit_char(n)]
    } else {
        decimal(n / 10).push(digit_char(n % 10))
    }
}

/// The name of the device numbered `n`: "dev" and the number.
pub open spec fn device_name_of(n: nat) -> Seq<char> {
    seq!['d', 'e', 'v'] + decimal(n)
}

/// The one-character string of decimal digit `d`.
fn digit_str(d: u32) -> (r: &'static str)
    requires
        d < 10,
    ensures
        r@ == seq![digit_char(d as nat)],
{
    let r = match d {
        0 => "0",
        1 => "1",
        2 => "2",
        3 => "3",
        4 => "4",
        5 => "5",
        6 => "6",
        7 => "7",
        8 => "8",
        _ => "9",
    };
    proof {
        reveal_strlit("0");
        reveal_strlit("1");
        reveal_strlit("2");
        reveal_strlit("3");
        reveal_strlit("4");
        reveal_strlit("5");
        reveal_strlit("6");
        reveal_strlit("7");
        reveal_strlit("8");
        reveal_strlit("9");
        assert(r@ =~= seq![digit_char(d as nat)]);
    }
    r
}

/// Appends the decimal digits of `n` to `s`.
fn append_decimal(s: &mut String, n: u32)
    ensures
        final(s)@ == old(s)@ + decimal(n as nat),
    decreases n,
{
    if n >= 10 {
        append_decimal(s, n / 10);
    }
    s.append(digit_str(n % 10));
    proof {
        if n >= 10 {
            assert(old(s)@ + decimal(n as nat) =~= old(s)@ + decimal((n / 10) as nat) + seq![
                digit_char((n % 10) as nat),
            ]);
        } else {
            assert(old(s)@ + decimal(n as nat) =~= old(s)@ + seq![digit_char((n % 10) as nat)]);
        }
    }
}

/// The name of the device numbered `index`.
pub(crate) fn device_name(index: u32) -> (r: String)
    ensures
        r@ == device_name_of(index as nat),
{
    let mut name = String::from_str("dev");
    proof {
        reveal_strlit("dev");
    }
    append_decimal(&mut name, index);
    assert(name@ =~= device_name_of(index as nat));
    name
}

} // verus!
