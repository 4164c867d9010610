//! Diagnostics of the boards around the link: the status code of the two
//! link indicators, and the line that a receiver logs for a packet.

use vstd::prelude::*;

verus! {

/// The status code of the receive and transmit indicators: bit 0 is set
/// when receive is down, bit 1 when transmit is down.
pub open spec fn status_code(rx_ok: bool, tx_ok: bool) -> u32 {
    if rx_ok && tx_ok {
        0
    } else if tx_ok {
        1
    } else if rx_ok {
        2
    } else {
        3
    }
}

/// Computes the status code of the two indicators.
pub fn interpret_err(rx_ok: bool, tx_ok: bool) -> (code: u32)
    ensures
        code == status_code(rx_ok, tx_ok),
{
    match (rx_ok, tx_ok) {
        (true, true) => 0x00,
        (false, true) => 0x01,
        (true, false) => 0x02,
        (false, false) => 0x03,
    }
}

/// The words for a status code; every code without words of its own reads
/// "ok".
pub open spec fn reason_text(code: u32) -> Seq<char> {
    if code == 1 {
        "RX low"@
    } else if code == 2 {
        "TX low"@
    } else if code == 3 {
        "RX+TX low"@
    } else {
        "ok"@
    }
}

/// Names a status code.
pub fn err_reason(code: u32) -> (reason: &'static str)
    ensures
        reason@ == reason_text(code),
{
    match code {
        0x01 => "RX low",
        0x02 => "TX low",
        0x03 => "RX+TX low",
        _ => "ok",
    }
}

/// The decimal digits of `n` in ASCII, without leading zeros.
pub open spec fn decimal(n: nat) -> Seq<u8>
    decreases n,
{
    if n < 10 {
        seq![(0x30 + n) as u8]
    } else {
        decimal(n / 10).push((0x30 + n % 10) as u8)
    }
}

/// The line that a receiver logs for a packet: `rx pkt `, the sequence
/// byte as it came, ` total=`, the number of packets so far in decimal,
/// and a line end.
pub open spec fn rx_log_line_spec(seq: u8, total: u32) -> Seq<u8> {
    seq![0x72u8, 0x78, 0x20, 0x70, 0x6b, 0x74, 0x20] + seq![seq] + seq![
        0x20u8,
        0x74,
        0x6f,
        0x74,
        0x61,
        0x6c,
        0x3d,
    ] + decimal(total as nat) + seq![0x0du8, 0x0a]
}

/// Ten to the power `k`.
pub open spec fn pow10(k: nat) -> nat
    decreases k,
{
    if k == 0 {
        1
    } else {
        10 * pow10((k - 1) as nat)
    }
}

/// A number below ten to the power `k` has at most `k` digits.
proof fn lemma_decimal_len(n: nat, k: nat)
    requires
        k >= 1,
        n < pow10(k),
    ensures
        1 <= decimal(n).len() <= k,
    decreases k,
{
    if n >= 10 {
        assert(pow10(1) == 10) by {
            reveal_with_fuel(pow10, 2);
        }
        assert(k >= 2);
        lemma_decimal_len(n / 10, (k - 1) as nat);
    }
}

/// Writes the decimal digits of `n`.
pub fn decimal_digits(n: u32) -> (out: Vec<u8>)
    ensures
        out@ == decimal(n as nat),
{
    let mut digits = [0u8; 10];
    let mut i: usize = 10;
    let mut rest = n;
    if rest == 0 {
        i -= 1;
        digits[i] = 0x30;
        assert(digits@.subrange(i as int, 10) =~= decimal(0));
    } else {
        proof {
            assert(pow10(10) == 10_000_000_000) by {
                reveal_with_fuel(pow10, 11);
            }
            lemma_decimal_len(n as nat, 10);
            assert(digits@.subrange(10, 10) =~= Seq::<u8>::empty());
            assert(decimal(n as nat) + Seq::<u8>::empty() =~= decimal(n as nat));
        }
        while rest > 0
            invariant
                i <= 10,
                decimal(n as nat).len() <= 10,
                rest > 0 ==> decimal(n as nat) == decimal(rest as nat) + digits@.subrange(
                    i as int,
                    10,
                ),
                rest == 0 ==> decimal(n as nat) == digits@.subrange(i as int, 10),
            decreases rest,
        {
            assert(decimal(rest as nat).len() >= 1);
            let ghost before = digits@.subrange(i as int, 10);
            i -= 1;
            digits[i] = 0x30 + (rest % 10) as u8;
            let d = digits[i];
            assert(digits@.subrange(i as int, 10) =~= seq![d] + before);
            proof {
                if rest >= 10 {
                    assert(decimal(rest as nat) == decimal((rest / 10) as nat).push(d));
                    assert(decimal((rest / 10) as nat).push(d) + before =~= decimal(
                        (rest / 10) as nat,
                    ) + (seq![d] + before));
                } else {
                    assert(decimal(rest as nat) =~= seq![d]);
                }
            }
            rest = rest / 10;
        }
    }
    vstd::slice::slice_to_vec(&digits[i..10])
}

/// Builds the line that a receiver logs for a packet.
pub fn rx_log_line(seq: u8, total: u32) -> (line: Vec<u8>)
    ensures
        line@ == rx_log_line_spec(seq, total),
{
    let head = [0x72u8, 0x78, 0x20, 0x70, 0x6b, 0x74, 0x20];
    let mid = [0x20u8, 0x74, 0x6f, 0x74, 0x61, 0x6c, 0x3d];
    let end = [0x0du8, 0x0a];
    let digits = decimal_digits(total);
    let mut line = Vec::new();
    line.extend_from_slice(&head);
    line.push(seq);
    line.extend_from_slice(&mid);
    line.extend_from_slice(digits.as_slice());
    line.extend_from_slice(&end);
    assert(line@ =~= rx_log_line_spec(seq, total));
    line
}

} // verus!
