//! Status codes of the audio system as text.

use vstd::prelude::*;
use vstd::string::*;

use crate::number;

verus! {

/// The status of a call that worked.
pub const OS_STATUS_OK: i32 = 0;

/// The bits of a status as an unsigned number.
pub open spec fn status_bits(status: i32) -> nat {
    if status < 0 {
        (status + 0x1_0000_0000) as nat
    } else {
        status as nat
    }
}

/// The byte `i` of a status, the most significant one first.
pub open spec fn status_byte(status: i32, i: int) -> nat {
    let u = status_bits(status);
    if i == 0 {
        u / 0x100_0000
    } else if i == 1 {
        u / 0x1_0000 % 0x100
    } else if i == 2 {
        u / 0x100 % 0x100
    } else {
        u % 0x100
    }
}

/// A byte that prints: a space or a visible ASCII character.
pub open spec fn prints(byte: nat) -> bool {
    0x20 <= byte <= 0x7e
}

/// The four characters that a status spells.
pub open spec fn fourcc(status: i32) -> Seq<char> {
    Seq::new(4, |i: int| status_byte(status, i) as char)
}

/// A status as text: its number, and the four characters that it spells if
/// they all print.
pub open spec fn status_text(status: i32) -> Seq<char> {
    let n = number::signed_dec(status as int);
    if prints(status_byte(status, 0)) && prints(status_byte(status, 1)) && prints(
        status_byte(status, 2),
    ) && prints(status_byte(status, 3)) {
        n + " ('"@ + fourcc(status) + "')"@
    } else {
        n
    }
}

/// A status as text.
pub fn osstatus_to_string(status: i32) -> (r: String)
    ensures
        r@ == status_text(status),
{
    let bits: u32 = if status < 0 {
        (status as i64 + 0x1_0000_0000) as u32
    } else {
        status as u32
    };
    let a: u8 = (bits / 0x100_0000) as u8;
    let b: u8 = (bits / 0x1_0000 % 0x100) as u8;
    let c: u8 = (bits / 0x100 % 0x100) as u8;
    let d: u8 = (bits % 0x100) as u8;
    let mut out = number::signed_text(status as i64);
    let all = 0x20 <= a && a <= 0x7e && 0x20 <= b && b <= 0x7e && 0x20 <= c && c <= 0x7e && 0x20
        <= d && d <= 0x7e;
    if all {
        out.append(" ('");
        let ghost head = out@;
        out.push(a as char);
        out.push(b as char);
        out.push(c as char);
        out.push(d as char);
        proof {
            assert(out@ =~= head + fourcc(status));
        }
        out.append("')");
    }
    out
}

/// What is said of a call that failed.
pub open spec fn failure_text(operation: Seq<char>, status: i32) -> Seq<char> {
    operation + " failed: osstatus="@ + status_text(status)
}

/// The outcome of a call: what is said of it if it failed.
pub fn ensure_status(status: i32, operation: &str) -> (r: Result<(), String>)
    ensures
        match r {
            Ok(()) => status == OS_STATUS_OK,
            Err(message) => status != OS_STATUS_OK && message@ == failure_text(operation@, status),
        },
{
    if status == OS_STATUS_OK {
        return Ok(());
    }
    let mut message = operation.to_owned();
    message.append(" failed: osstatus=");
    message.append(osstatus_to_string(status).as_str());
    Err(message)
}

/// The status as text if a call that releases something failed.
pub fn warn_status(status: i32) -> (r: Option<String>)
    ensures
        match r {
            None => status == OS_STATUS_OK,
            Some(text) => status != OS_STATUS_OK && text@ == status_text(status),
        },
{
    if status == OS_STATUS_OK {
        None
    } else {
        Some(osstatus_to_string(status))
    }
}

// ─── Laws ──────────────────────────────────────────────────────────────

/// A status whose four bytes all print is told with the characters that they
/// spell, the most significant first; any other by its number alone.
pub proof fn law_status_spells_four_characters(status: i32, a: nat, b: nat, c: nat, d: nat)
    requires
        a < 256 && b < 256 && c < 256 && d < 256,
        status == ((a * 256 + b) * 256 + c) * 256 + d || status + 0x1_0000_0000 == ((a * 256 + b)
            * 256 + c) * 256 + d,
    ensures
        ({
            let printing = 32 <= a <= 126 && 32 <= b <= 126 && 32 <= c <= 126 && 32 <= d <= 126;
            &&& printing ==> status_text(status) == number::signed_dec(status as int) + " ('"@
                + seq![a as char, b as char, c as char, d as char] + "')"@
            &&& !printing ==> status_text(status) == number::signed_dec(status as int)
        }),
{
    let u = ((a * 256 + b) * 256 + c) * 256 + d;
    assert(status_bits(status) == u);
    assert(u / 0x100_0000 == a);
    assert(u / 0x1_0000 % 0x100 == b);
    assert(u / 0x100 % 0x100 == c);
    assert(u % 0x100 == d);
    assert(fourcc(status) =~= seq![a as char, b as char, c as char, d as char]);
}

/// A call that failed is told with what it was and its status.
pub proof fn law_failure_names_the_call(operation: Seq<char>, status: i32)
    ensures
        failure_text(operation, status) == operation + " failed: osstatus="@ + status_text(status),
        OS_STATUS_OK == 0,
{
}

} // verus!
