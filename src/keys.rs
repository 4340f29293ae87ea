use crate::decimal::Decimal;
use crate::error::generic_err;
use vstd::prelude::*;

verus! {

/// The unsigned integer that a byte string encodes, most significant byte first.
pub open spec fn be_value(s: Seq<u8>) -> nat
    decreases s.len(),
{
    if s.len() == 0 {
        0
    } else {
        be_value(s.drop_last()) * 256 + s.last() as nat
    }
}

/// `256^n`.
pub open spec fn byte_range(n: nat) -> nat
    decreases n,
{
    if n == 0 {
        1
    } else {
        256 * byte_range((n - 1) as nat)
    }
}

/// Decodes a stored period key: exactly eight bytes, big-endian, so that the
/// byte order of keys is their numeric order.
pub fn decode_period(bytes: &Vec<u8>) -> (r: Option<u64>)
    ensures
        r is Some <==> bytes@.len() == 8,
        r is Some ==> r->0 as nat == be_value(bytes@),
{
    if bytes.len() != 8 {
        return None;
    }
    let mut v: u64 = 0;
    let mut i: usize = 0;
    proof {
        reveal_with_fuel(byte_range, 9);
        assert(byte_range(8) == 0x1_0000_0000_0000_0000);
    }
    while i < 8
        invariant
            bytes@.len() == 8,
            i <= 8,
            v == be_value(bytes@.take(i as int)),
            v < byte_range(i as nat),
            byte_range(8) == 0x1_0000_0000_0000_0000,
        decreases 8 - i,
    {
        let b = bytes[i];
        proof {
            assert(bytes@.take(i + 1).drop_last() == bytes@.take(i as int));
            assert(byte_range((i + 1) as nat) == 256 * byte_range(i as nat));
            assert(v * 256 + b < 256 * byte_range(i as nat)) by (nonlinear_arith)
                requires
                    v < byte_range(i as nat),
                    b < 256,
            ;
            if i < 7 {
                lemma_byte_range_grows((i + 1) as nat, 8);
            }
        }
        v = v * 256 + b as u64;
        i += 1;
    }
    assert(bytes@.take(8) == bytes@);
    Some(v)
}

proof fn lemma_byte_range_grows(a: nat, b: nat)
    requires
        a <= b,
    ensures
        byte_range(a) <= byte_range(b),
    decreases b - a,
{
    if a < b {
        lemma_byte_range_grows(a, (b - 1) as nat);
    }
}

/// Decodes one stored slope change: its period key and its amount. A key that
/// is not eight bytes long is a deserialization error; an error of the
/// storage layer passes through.
pub fn deserialize_pair(pair: Result<(Vec<u8>, Decimal), cosmwasm_std::StdError>) -> (r: Result<
    (u64, Decimal),
    cosmwasm_std::StdError,
>)
    ensures
        pair is Err ==> r is Err && r->Err_0 == pair->Err_0,
        pair is Ok ==> (r is Ok <==> pair->Ok_0.0@.len() == 8),
        pair is Ok && r is Ok ==> r->Ok_0.0 == be_value(pair->Ok_0.0@) && r->Ok_0.1
            == pair->Ok_0.1,
{
    match pair {
        Err(e) => Err(e),
        Ok((key, change)) => match decode_period(&key) {
            Some(period) => Ok((period, change)),
            None => Err(generic_err("Deserialization error")),
        },
    }
}

} // verus!
