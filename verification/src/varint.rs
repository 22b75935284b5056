//! The LEB128 variable-length integer encoding of the protobuf wire format.
use vstd::prelude::*;

verus! {

/// `128` raised to the power `k`.
pub open spec fn pow128(k: nat) -> nat
    decreases k,
{
    if k == 0 {
        1
    } else {
        128 * pow128((k - 1) as nat)
    }
}

/// The bytes that encode `v`: seven bits per byte, least significant group
/// first, every byte but the last with its high bit set.
pub open spec fn varint_bytes(v: nat) -> Seq<u8>
    decreases v,
{
    if v < 128 {
        seq![v as u8]
    } else {
        seq![(v % 128 + 128) as u8] + varint_bytes(v / 128)
    }
}

/// The length of the varint at the start of `s`, where at most `k` bytes may
/// be spent on it and the `k`-th byte, if reached, must be 0 or 1; `None` when
/// `s` does not start with such a varint.
pub open spec fn varint_len_within(s: Seq<u8>, k: nat) -> Option<nat>
    decreases k,
{
    if k == 0 || s.len() == 0 {
        None
    } else if s[0] < 128 {
        if k == 1 && s[0] >= 2 {
            None
        } else {
            Some(1)
        }
    } else {
        match varint_len_within(s.drop_first(), (k - 1) as nat) {
            Some(n) => Some(n + 1),
            None => None,
        }
    }
}

/// The length of the varint that a reader of 64-bit varints accepts at the
/// start of `s`: it ends at the first byte below `0x80`, within ten bytes, and a
/// tenth byte may only be 0 or 1 (else the value would not fit in 64 bits).
pub open spec fn varint_len(s: Seq<u8>) -> Option<nat> {
    varint_len_within(s, 10)
}

/// The value of the first `n` bytes of `s` read as a varint.
pub open spec fn varint_value(s: Seq<u8>, n: nat) -> nat
    decreases n,
{
    if n == 0 || s.len() == 0 {
        0
    } else {
        (s[0] % 128) as nat + 128 * varint_value(s.drop_first(), (n - 1) as nat)
    }
}

/// The varint at the start of `s`: its value and its length.
pub open spec fn varint_at(s: Seq<u8>) -> Option<(nat, nat)> {
    match varint_len(s) {
        Some(n) => Some((varint_value(s, n), n)),
        None => None,
    }
}

proof fn lemma_div_bound(x: nat, y: nat)
    requires
        x < 128 * y,
    ensures
        x / 128 < y,
{
    assert(x / 128 < y) by (nonlinear_arith)
        requires
            x < 128 * y,
    ;
}

/// The encoding of a value that fits the byte budget reads back as that value.
proof fn lemma_varint_roundtrip_within(v: nat, rest: Seq<u8>, k: nat)
    requires
        1 <= k,
        v < 2 * pow128((k - 1) as nat),
    ensures
        varint_len_within(varint_bytes(v) + rest, k) == Some(varint_bytes(v).len()),
        varint_value(varint_bytes(v) + rest, varint_bytes(v).len()) == v,
    decreases v,
{
    let s = varint_bytes(v) + rest;
    if v < 128 {
        assert(s[0] == v as u8);
        assert(varint_value(s.drop_first(), 0) == 0);
    } else {
        if k == 1 {
            assert(pow128(0) == 1);
            assert(false);
        }
        let k1 = (k - 1) as nat;
        assert(pow128(k1) == 128 * pow128((k1 - 1) as nat));
        lemma_div_bound(v, 2 * pow128((k1 - 1) as nat));
        lemma_varint_roundtrip_within(v / 128, rest, k1);
        assert(s.drop_first() =~= varint_bytes(v / 128) + rest);
        assert(s[0] == (v % 128 + 128) as u8);
        assert((s[0] % 128) as nat == v % 128);
    }
}

/// Every 64-bit value reads back from its encoding, whatever follows it.
pub proof fn lemma_varint_roundtrip(v: u64, rest: Seq<u8>)
    ensures
        varint_at(varint_bytes(v as nat) + rest) == Some((v as nat, varint_bytes(v as nat).len())),
        1 <= varint_bytes(v as nat).len() <= 10,
{
    reveal_with_fuel(pow128, 10);
    assert(pow128(9) == 0x8000_0000_0000_0000);
    lemma_varint_roundtrip_within(v as nat, rest, 10);
    lemma_varint_len_within_bound(varint_bytes(v as nat) + rest, 10);
}

/// A varint that is accepted within a budget of `k` bytes is one to `k` bytes long.
pub proof fn lemma_varint_len_within_bound(s: Seq<u8>, k: nat)
    ensures
        varint_len_within(s, k) matches Some(n) ==> 1 <= n <= k && n <= s.len(),
    decreases k,
{
    if k > 0 && s.len() > 0 && s[0] >= 128 {
        lemma_varint_len_within_bound(s.drop_first(), (k - 1) as nat);
    }
}

} // verus!
