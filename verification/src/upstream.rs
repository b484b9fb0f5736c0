//! Decisions the service makes from its configuration: the endpoint string
//! for the upstream RPC node, and whether a periodic cache refresher should
//! run at all. Reading the configuration file is the caller's business; the
//! values arrive here as plain bytes and integers.

use vstd::prelude::*;

verus! {

/// The byte that separates host and port in an endpoint string.
pub const COLON: u8 = 58;

/// The decimal digits of `n`, most significant first, as bytes.
pub open spec fn spec_decimal(n: nat) -> Seq<u8>
    decreases n,
{
    if n < 10 {
        seq![(n + 48) as u8]
    } else {
        spec_decimal(n / 10) + seq![(n % 10 + 48) as u8]
    }
}

/// Formats a port number in decimal.
pub fn decimal_digits(n: u16) -> (r: Vec<u8>)
    ensures
        r@ == spec_decimal(n as nat),
    decreases n,
{
    if n < 10 {
        let mut v: Vec<u8> = Vec::new();
        v.push((n as u8) + 48);
        proof {
            assert(v@ =~= spec_decimal(n as nat));
        }
        v
    } else {
        let mut v = decimal_digits(n / 10);
        v.push(((n % 10) as u8) + 48);
        proof {
            assert(v@ =~= spec_decimal(n as nat));
        }
        v
    }
}

/// The upstream RPC endpoint: the configured URL, a colon, the configured
/// port in decimal.
pub fn rpc_endpoint(url: &Vec<u8>, port: u16) -> (r: Vec<u8>)
    ensures
        r@ == url@ + seq![COLON] + spec_decimal(port as nat),
{
    let mut v: Vec<u8> = Vec::new();
    let mut i: usize = 0;
    while i < url.len()
        invariant
            i <= url@.len(),
            v@ == url@.subrange(0, i as int),
        decreases url@.len() - i,
    {
        v.push(url[i]);
        proof {
            assert(v@ =~= url@.subrange(0, i + 1));
        }
        i = i + 1;
    }
    v.push(COLON);
    let mut digits = decimal_digits(port);
    v.append(&mut digits);
    proof {
        assert(url@.subrange(0, url@.len() as int) =~= url@);
        assert(v@ =~= url@ + seq![COLON] + spec_decimal(port as nat));
    }
    v
}

/// The four bytes whose presence in the configured URL turns the periodic
/// cache refresher on.
pub open spec fn http_marker() -> Seq<u8> {
    seq![104u8, 116u8, 116u8, 112u8]
}

/// Whether the URL names an HTTP endpoint anywhere in it.
pub open spec fn spec_mentions_http(b: Seq<u8>) -> bool {
    exists|i: int| 0 <= i && i + 4 <= b.len() && #[trigger] b.subrange(i, i + 4) == http_marker()
}

/// Decides whether the periodic refresher task should run: exactly when the
/// configured URL mentions HTTP.
pub fn should_poll_upstream(url: &Vec<u8>) -> (r: bool)
    ensures
        r == spec_mentions_http(url@),
{
    if url.len() < 4 {
        proof {
            assert(!spec_mentions_http(url@));
        }
        return false;
    }
    let mut i: usize = 0;
    while i <= url.len() - 4
        invariant
            url@.len() >= 4,
            i <= url@.len(),
            forall|j: int| 0 <= j < i ==> #[trigger] url@.subrange(j, j + 4) != http_marker(),
        decreases url@.len() - i,
    {
        if url[i] == 104 && url[i + 1] == 116 && url[i + 2] == 116 && url[i + 3] == 112 {
            proof {
                assert(url@.subrange(i as int, i as int + 4) =~= http_marker());
            }
            return true;
        }
        proof {
            let sub = url@.subrange(i as int, i as int + 4);
            assert(sub[0] == url@[i as int] && sub[1] == url@[i as int + 1]);
            assert(sub[2] == url@[i as int + 2] && sub[3] == url@[i as int + 3]);
            assert(sub != http_marker());
        }
        i = i + 1;
    }
    proof {
        assert forall|j: int| 0 <= j && j + 4 <= url@.len() implies #[trigger] url@.subrange(
            j,
            j + 4,
        ) != http_marker() by {
            assert(j < i);
        }
        assert(!spec_mentions_http(url@));
    }
    false
}

} // verus!
