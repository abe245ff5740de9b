//! Wire codec: one activation command is the ASCII line
//! `<node_id>,<true|false>\n`, encoded as raw bytes.

use vstd::prelude::*;

verus! {

/// Decimal digits of `n` in ASCII, most significant digit first.
pub open spec fn dec_digits(n: nat) -> Seq<u8>
    decreases n,
{
    if n < 10 {
        seq![(48 + n) as u8]
    } else {
        dec_digits(n / 10).push((48 + n % 10) as u8)
    }
}

/// ASCII decimal form of `n`: the digits of its magnitude, with a leading
/// `-` when `n` is negative.
pub open spec fn dec_bytes(n: int) -> Seq<u8> {
    if n < 0 {
        seq![45u8] + dec_digits((-n) as nat)
    } else {
        dec_digits(n as nat)
    }
}

/// The fixed token naming the requested state: `true` or `false`.
pub open spec fn state_token(state: bool) -> Seq<u8> {
    if state {
        seq![116u8, 114u8, 117u8, 101u8]
    } else {
        seq![102u8, 97u8, 108u8, 115u8, 101u8]
    }
}

/// The whole payload of one command: decimal node id, a separator comma,
/// the state token, a terminating newline.
pub open spec fn command_bytes(node_id: int, state: bool) -> Seq<u8> {
    dec_bytes(node_id) + seq![44u8] + state_token(state) + seq![10u8]
}

/// The digits of a number are ASCII digits, at least one of them, and a
/// positive number never starts with a zero: `dec_digits` is the plain
/// decimal form.
pub proof fn lemma_dec_digits_wellformed(n: nat)
    ensures
        dec_digits(n).len() >= 1,
        forall|i: int| 0 <= i < dec_digits(n).len() ==> 48 <= #[trigger] dec_digits(n)[i] <= 57,
        n >= 1 ==> dec_digits(n)[0] != 48,
    decreases n,
{
    if n >= 10 {
        lemma_dec_digits_wellformed(n / 10);
        assert forall|i: int| 0 <= i < dec_digits(n).len() implies 48 <= #[trigger] dec_digits(
            n,
        )[i] <= 57 by {
            if i < dec_digits(n / 10).len() {
                assert(dec_digits(n)[i] == dec_digits(n / 10)[i]);
            }
        }
        assert(dec_digits(n)[0] == dec_digits(n / 10)[0]);
    }
}

/// One command is exactly one line: the payload ends with the newline
/// terminator and holds no other newline, so back-to-back payloads on the
/// wire stay separable.
pub proof fn lemma_command_single_line(node_id: int, state: bool)
    ensures
        command_bytes(node_id, state).len() >= 1,
        command_bytes(node_id, state).last() == 10u8,
        forall|i: int|
            0 <= i < command_bytes(node_id, state).len() - 1 ==> #[trigger] command_bytes(
                node_id,
                state,
            )[i] != 10u8,
{
    if node_id < 0 {
        lemma_dec_digits_wellformed((-node_id) as nat);
    } else {
        lemma_dec_digits_wellformed(node_id as nat);
    }
    let c = command_bytes(node_id, state);
    let d = dec_bytes(node_id);
    assert forall|i: int| 0 <= i < c.len() - 1 implies #[trigger] c[i] != 10u8 by {
        if i < d.len() {
            assert(c[i] == d[i]);
            if node_id < 0 {
                if i == 0 {
                    assert(d[i] == 45u8);
                } else {
                    assert(d[i] == dec_digits((-node_id) as nat)[i - 1]);
                }
            } else {
                assert(d[i] == dec_digits(node_id as nat)[i]);
            }
        } else if i == d.len() {
            assert(c[i] == 44u8);
        } else {
            assert(c[i] == state_token(state)[i - d.len() - 1]);
        }
    }
    assert(c.last() == 10u8);
}

/// Appends the decimal digits of `n` to `buf`.
fn push_decimal_digits(buf: &mut Vec<u8>, n: u64)
    ensures
        final(buf)@ == old(buf)@ + dec_digits(n as nat),
    decreases n,
{
    if n < 10 {
        buf.push((48 + n) as u8);
        assert(buf@ =~= old(buf)@ + dec_digits(n as nat));
    } else {
        push_decimal_digits(buf, n / 10);
        buf.push((48 + n % 10) as u8);
        assert(buf@ =~= old(buf)@ + dec_digits(n as nat));
    }
}

/// Encodes a `set node to state` request as the exact byte sequence the
/// device expects. Pure and total: every `(node_id, state)` pair has an
/// encoding and encoding never fails.
pub fn encode_command(node_id: i32, state: bool) -> (r: Vec<u8>)
    ensures
        r@ == command_bytes(node_id as int, state),
{
    let mut buf: Vec<u8> = Vec::new();
    let magnitude: u64;
    if node_id < 0 {
        buf.push(45);
        magnitude = (-(node_id as i64)) as u64;
        assert(magnitude as int == -(node_id as int));
        assert(buf@ =~= seq![45u8]);
    } else {
        magnitude = node_id as u64;
    }
    push_decimal_digits(&mut buf, magnitude);
    assert(buf@ =~= dec_bytes(node_id as int));
    buf.push(44);
    if state {
        buf.push(116);
        buf.push(114);
        buf.push(117);
        buf.push(101);
    } else {
        buf.push(102);
        buf.push(97);
        buf.push(108);
        buf.push(115);
        buf.push(101);
    }
    buf.push(10);
    assert(buf@ =~= command_bytes(node_id as int, state));
    buf
}

} // verus!
