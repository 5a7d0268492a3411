use vstd::prelude::*;
use vstd::string::StringSliceAdditionalSpecFns;

verus! {

/// A record as the ledger holds it: temperature and humidity in hundredths,
/// and the SHA3-256 digest of `hash_input` over the other fields.
#[derive(Clone, Debug)]
pub struct OracleData {
    pub city: String,
    pub temperature: i64,
    pub humidity: i64,
    pub timestamp: u64,
    pub data_hash: [u8; 32],
}

/// Byte `j` (0 = most significant) of the big-endian encoding of `u`.
pub open spec fn be_byte(u: u64, j: int) -> u8 {
    ((u >> ((56 - 8 * j) as u64)) & 0xff) as u8
}

/// The eight big-endian bytes of `u`.
pub open spec fn be_bytes(u: u64) -> Seq<u8> {
    Seq::new(8, |j: int| be_byte(u, j))
}

/// The bytes the ledger digest is taken over: the city's UTF-8 bytes, then
/// temperature, humidity (two's complement) and timestamp, each as eight
/// big-endian bytes.
pub open spec fn hash_input_spec(city: Seq<u8>, temperature: i64, humidity: i64, timestamp: u64) -> Seq<u8> {
    city + be_bytes(temperature as u64) + be_bytes(humidity as u64) + be_bytes(timestamp)
}

fn push_be(out: &mut Vec<u8>, u: u64)
    ensures
        final(out)@ == old(out)@ + be_bytes(u),
{
    let mut j: u64 = 0;
    while j < 8
        invariant
            0 <= j <= 8,
            out@ == old(out)@ + be_bytes(u).take(j as int),
        decreases 8 - j,
    {
        let b = ((u >> (56 - 8 * j)) & 0xff) as u8;
        out.push(b);
        proof {
            assert(b == be_byte(u, j as int));
            assert(out@ =~= old(out)@ + be_bytes(u).take(j + 1));
        }
        j = j + 1;
    }
    proof {
        assert(be_bytes(u).take(8) =~= be_bytes(u));
    }
}

/// The bytes whose SHA3-256 digest identifies a ledger record.
pub fn hash_input(city: &str, temperature: i64, humidity: i64, timestamp: u64) -> (r: Vec<u8>)
    ensures
        r@ == hash_input_spec(city.spec_bytes(), temperature, humidity, timestamp),
{
    let bytes = city.as_bytes();
    let mut out: Vec<u8> = Vec::new();
    let mut i: usize = 0;
    while i < bytes.len()
        invariant
            0 <= i <= bytes@.len(),
            out@ == bytes@.take(i as int),
        decreases bytes@.len() - i,
    {
        out.push(bytes[i]);
        proof {
            assert(out@ =~= bytes@.take(i + 1));
        }
        i = i + 1;
    }
    proof {
        assert(bytes@.take(bytes@.len() as int) =~= bytes@);
    }
    push_be(&mut out, temperature as u64);
    push_be(&mut out, humidity as u64);
    push_be(&mut out, timestamp);
    proof {
        assert(out@ =~= hash_input_spec(city.spec_bytes(), temperature, humidity, timestamp));
    }
    out
}

} // verus!
