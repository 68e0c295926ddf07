//! The destination address record at the head of each server-side stream:
//! one address-type byte, the address, and a big-endian port. Parsing
//! renders it as the ASCII `host:port` text the dialer takes.

use vstd::prelude::*;
use crate::bytestr::{spec_dec_str, u32_dec_str};
use crate::frame::{read_u16_be, spec_u16_from_be_bytes};
use crate::session::ProxyError;

verus! {

/// IPv4: four address bytes.
pub const ATYP_IPV4: u8 = 1;

/// Domain: a length byte, then that many name bytes.
pub const ATYP_DOMAIN: u8 = 3;

/// IPv6: sixteen address bytes.
pub const ATYP_IPV6: u8 = 4;

pub open spec fn spec_hex_digit(d: int) -> u8 {
    if d < 10 {
        (48 + d) as u8
    } else {
        (87 + d) as u8
    }
}

/// Two lowercase hex digits of one byte.
pub open spec fn spec_hex2(b: u8) -> Seq<u8> {
    seq![spec_hex_digit(b as int / 16), spec_hex_digit(b as int % 16)]
}

/// The colon-joined hex groups of an IPv6 address record, from the pair
/// at index `i` on; each group renders two bytes as four hex digits.
pub open spec fn spec_ipv6_groups(data: Seq<u8>, i: int) -> Seq<u8>
    recommends
        data.len() >= 19,
        0 <= i <= 8,
    decreases 8 - i,
{
    if i < 0 || i >= 8 {
        Seq::empty()
    } else {
        let grp = spec_hex2(data[1 + 2 * i]) + spec_hex2(data[2 + 2 * i]);
        if i == 7 {
            grp
        } else {
            grp + seq![58u8] + spec_ipv6_groups(data, i + 1)
        }
    }
}

/// What an address record renders to: `a.b.c.d:port` for IPv4, the name
/// bytes and `:port` for a domain, `[groups]:port` for IPv6; `None` for a
/// short record or an unknown address type.
pub open spec fn spec_socks_addr(data: Seq<u8>) -> Option<Seq<u8>> {
    if data.len() == 0 {
        None
    } else if data[0] == ATYP_IPV4 {
        if data.len() < 7 {
            None
        } else {
            let port = spec_u16_from_be_bytes(data.subrange(5, 7));
            Some(
                spec_dec_str(data[1] as int) + seq![46u8] + spec_dec_str(data[2] as int)
                    + seq![46u8] + spec_dec_str(data[3] as int) + seq![46u8] + spec_dec_str(
                    data[4] as int,
                ) + seq![58u8] + spec_dec_str(port as int),
            )
        }
    } else if data[0] == ATYP_DOMAIN {
        if data.len() < 4 {
            None
        } else {
            let dlen = data[1] as int;
            if data.len() < 2 + dlen + 2 {
                None
            } else {
                let port = spec_u16_from_be_bytes(data.subrange(2 + dlen, 4 + dlen));
                Some(data.subrange(2, 2 + dlen) + seq![58u8] + spec_dec_str(port as int))
            }
        }
    } else if data[0] == ATYP_IPV6 {
        if data.len() < 19 {
            None
        } else {
            let port = spec_u16_from_be_bytes(data.subrange(17, 19));
            Some(
                seq![91u8] + spec_ipv6_groups(data, 0) + seq![93u8, 58u8] + spec_dec_str(
                    port as int,
                ),
            )
        }
    } else {
        None
    }
}

/// Append the two hex digits of `b`.
fn push_hex2(out: &mut Vec<u8>, b: u8)
    ensures
        final (out)@ == old(out)@ + spec_hex2(b),
{
    let hi = b / 16;
    let lo = b % 16;
    let c1 = if hi < 10 {
        48 + hi
    } else {
        87 + hi
    };
    let c2 = if lo < 10 {
        48 + lo
    } else {
        87 + lo
    };
    out.push(c1);
    out.push(c2);
    proof {
        assert(final (out)@ =~= old(out)@ + spec_hex2(b));
    }
}

fn ipv6_groups(data: &[u8], i: usize) -> (r: Vec<u8>)
    requires
        data@.len() >= 19,
        i <= 8,
    ensures
        r@ == spec_ipv6_groups(data@, i as int),
    decreases 8 - i,
{
    if i >= 8 {
        let r: Vec<u8> = Vec::new();
        proof {
            assert(r@ =~= spec_ipv6_groups(data@, i as int));
        }
        r
    } else {
        let mut r: Vec<u8> = Vec::new();
        push_hex2(&mut r, *vstd::slice::slice_index_get(data, 1 + 2 * i));
        push_hex2(&mut r, *vstd::slice::slice_index_get(data, 2 + 2 * i));
        if i < 7 {
            r.push(58);
            let rest = ipv6_groups(data, i + 1);
            r.extend_from_slice(rest.as_slice());
        }
        proof {
            assert(r@ =~= spec_ipv6_groups(data@, i as int));
        }
        r
    }
}

/// Append the decimal digits of `n`.
fn push_dec(out: &mut Vec<u8>, n: u32)
    ensures
        final (out)@ == old(out)@ + spec_dec_str(n as int),
{
    let digits = u32_dec_str(n);
    out.extend_from_slice(digits.as_slice());
    proof {
        assert(final (out)@ =~= old(out)@ + spec_dec_str(n as int));
    }
}

/// Render an address record as `host:port` ASCII text; a short record or
/// an unknown address type is rejected.
pub fn parse_socks_addr(addr_data: &[u8]) -> (r: Result<Vec<u8>, ProxyError>)
    ensures
        match r {
            Ok(text) => spec_socks_addr(addr_data@) == Some(text@),
            Err(e) => spec_socks_addr(addr_data@) is None && e == ProxyError::ProtocolError,
        },
{
    let n = addr_data.len();
    if n == 0 {
        return Err(ProxyError::ProtocolError);
    }
    let atyp = *vstd::slice::slice_index_get(addr_data, 0);
    if atyp == ATYP_IPV4 {
        if n < 7 {
            return Err(ProxyError::ProtocolError);
        }
        let mut out: Vec<u8> = Vec::new();
        push_dec(&mut out, *vstd::slice::slice_index_get(addr_data, 1) as u32);
        out.push(46);
        push_dec(&mut out, *vstd::slice::slice_index_get(addr_data, 2) as u32);
        out.push(46);
        push_dec(&mut out, *vstd::slice::slice_index_get(addr_data, 3) as u32);
        out.push(46);
        push_dec(&mut out, *vstd::slice::slice_index_get(addr_data, 4) as u32);
        out.push(58);
        let port = read_u16_be(addr_data, 5);
        push_dec(&mut out, port as u32);
        proof {
            assert(spec_socks_addr(addr_data@) == Some(out@)) by {
                assert(out@ =~= spec_dec_str(addr_data@[1] as int) + seq![46u8] + spec_dec_str(
                    addr_data@[2] as int,
                ) + seq![46u8] + spec_dec_str(addr_data@[3] as int) + seq![46u8] + spec_dec_str(
                    addr_data@[4] as int,
                ) + seq![58u8] + spec_dec_str(port as int));
            }
        }
        Ok(out)
    } else if atyp == ATYP_DOMAIN {
        if n < 4 {
            return Err(ProxyError::ProtocolError);
        }
        let dlen = *vstd::slice::slice_index_get(addr_data, 1) as usize;
        if n < 2 + dlen + 2 {
            return Err(ProxyError::ProtocolError);
        }
        let mut out = vstd::slice::slice_to_vec(
            vstd::slice::slice_subrange(addr_data, 2, 2 + dlen),
        );
        out.push(58);
        let port = read_u16_be(addr_data, 2 + dlen);
        push_dec(&mut out, port as u32);
        proof {
            assert(spec_socks_addr(addr_data@) == Some(out@)) by {
                assert(out@ =~= addr_data@.subrange(2, 2 + dlen as int) + seq![58u8]
                    + spec_dec_str(port as int));
            }
        }
        Ok(out)
    } else if atyp == ATYP_IPV6 {
        if n < 19 {
            return Err(ProxyError::ProtocolError);
        }
        let mut out: Vec<u8> = Vec::new();
        out.push(91);
        let groups = ipv6_groups(addr_data, 0);
        out.extend_from_slice(groups.as_slice());
        out.push(93);
        out.push(58);
        let port = read_u16_be(addr_data, 17);
        push_dec(&mut out, port as u32);
        proof {
            assert(spec_socks_addr(addr_data@) == Some(out@)) by {
                assert(out@ =~= seq![91u8] + spec_ipv6_groups(addr_data@, 0) + seq![93u8, 58u8]
                    + spec_dec_str(port as int));
            }
        }
        Ok(out)
    } else {
        Err(ProxyError::ProtocolError)
    }
}

} // verus!
