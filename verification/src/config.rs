//! The configuration of an interface: what is read from a file, turned into
//! keys, peers and allowed IPs.
use crate::error::TiTunError;
use crate::wireguard::types::{address_bits, spec_address_bits, Endpoint, IpAddress, PeerInfo, WgInfo};
use rustc_serialize::base64::{FromBase64, FromBase64Error};
use vstd::prelude::*;

verus! {

/// A peer as the file gives it: the key still in base64, each allowed IP with
/// the prefix length that was written after it, if any.
pub struct PeerConfig {
    pub public_key: String,
    pub endpoint: Option<Endpoint>,
    pub allowed_ips: Vec<(IpAddress, Option<u32>)>,
}

/// An interface as the file gives it, the keys still in base64.
pub struct ConfigParts {
    pub dev_name: String,
    pub listen_port: Option<u16>,
    pub psk: Option<String>,
    pub key: String,
    pub peers: Vec<PeerConfig>,
    pub on_up: Option<String>,
    pub on_down: Option<String>,
}

/// The configuration of an interface.
pub struct Config {
    pub dev_name: String,
    pub listen_port: Option<u16>,
    pub info: WgInfo,
    pub peers: Vec<PeerInfo>,
    pub on_up: Option<String>,
    pub on_down: Option<String>,
}

/// The bytes that a base64 text stands for, where it is well formed.
pub uninterp spec fn spec_from_base64(text: Seq<char>) -> Option<Seq<u8>>;

/// Trusted: the type `rustc_serialize::base64::FromBase64Error`, carried
/// from the decoder to `base64_error_text` without being looked into.
#[verifier::external_type_specification]
#[verifier::external_body]
pub struct ExFromBase64Error(FromBase64Error);

/// Trusted: `rustc_serialize::base64::FromBase64::from_base64` on a string.
/// Whether it succeeds, and with which bytes, depends on the text alone.
#[verifier::external_body]
fn from_base64(x: &str) -> (r: Result<Vec<u8>, FromBase64Error>)
    ensures
        r.is_ok() == spec_from_base64(x@).is_some(),
        r matches Ok(v) ==> spec_from_base64(x@) == Some(v@),
{
    x.from_base64()
}

/// Trusted: `std::error::Error::description` of a base64 error, as an owned
/// string.
#[verifier::external_body]
#[allow(deprecated)]
fn base64_error_text(e: &FromBase64Error) -> (r: String) {
    std::error::Error::description(e).to_string()
}

/// The 32 bytes that a base64 text stands for: `None` where the text is not
/// base64 or stands for another number of bytes.
pub open spec fn spec_base64_key(text: Seq<char>) -> Option<Seq<u8>> {
    match spec_from_base64(text) {
        Some(b) => if b.len() == 32 {
            Some(b)
        } else {
            None
        },
        None => None,
    }
}

/// Decode a key of 32 bytes from base64. Bytes of another number are
/// refused with the words `not 32 bytes`.
pub fn base64_to_arr(x: &str) -> (r: Result<[u8; 32], TiTunError>)
    ensures
        r.is_ok() == spec_base64_key(x@).is_some(),
        r matches Ok(k) ==> spec_base64_key(x@) == Some(k@),
        r matches Err(e) ==> e is OtherErr,
        spec_from_base64(x@).is_some() && spec_base64_key(x@).is_none() ==> (r matches Err(
            TiTunError::OtherErr(s),
        ) && s@ == "not 32 bytes"@),
{
    match from_base64(x) {
        Err(e) => Err(TiTunError::OtherErr(base64_error_text(&e))),
        Ok(v) => {
            if v.len() == 32 {
                let mut k = [0u8; 32];
                let mut i: usize = 0;
                while i < 32
                    invariant
                        i <= 32,
                        v@.len() == 32,
                        forall|j: int| 0 <= j < i ==> k@[j] == v@[j],
                    decreases 32 - i,
                {
                    k[i] = v[i];
                    i = i + 1;
                }
                assert(k@ =~= v@);
                Ok(k)
            } else {
                Err(TiTunError::other("not 32 bytes"))
            }
        },
    }
}

/// An allowed IP with its prefix length: the one that was written, or the
/// whole address where none was. `None` where the written one is longer than
/// an address of that family.
pub open spec fn spec_allowed_ip(a: IpAddress, prefix: Option<u32>) -> Option<(IpAddress, u32)> {
    match prefix {
        None => Some((a, spec_address_bits(a))),
        Some(p) => if p <= spec_address_bits(a) {
            Some((a, p))
        } else {
            None
        },
    }
}

/// Settle the prefix length of an allowed IP: without one the whole address
/// counts, 32 bits of IPv4 or 128 of IPv6; one longer than that is an error.
pub fn allowed_ip(a: IpAddress, prefix: Option<u32>) -> (r: Result<(IpAddress, u32), TiTunError>)
    ensures
        r.is_ok() == spec_allowed_ip(a, prefix).is_some(),
        r matches Ok(x) ==> spec_allowed_ip(a, prefix) == Some(x),
        r matches Err(e) ==> (e matches TiTunError::OtherErr(s) && s@
            == "failed to parse allowed IPs."@),
{
    let bits = address_bits(a);
    match prefix {
        None => Ok((a, bits)),
        Some(p) => if p <= bits {
            Ok((a, p))
        } else {
            Err(TiTunError::other("failed to parse allowed IPs."))
        },
    }
}

/// Turn an optional result inside out.
pub fn lift_err<T>(x: Option<Result<T, TiTunError>>) -> (r: Result<Option<T>, TiTunError>)
    ensures
        r == (match x {
            Some(Ok(t)) => Ok::<Option<T>, TiTunError>(Some(t)),
            Some(Err(e)) => Err::<Option<T>, TiTunError>(e),
            None => Ok::<Option<T>, TiTunError>(None),
        }),
{
    match x {
        Some(Ok(t)) => Ok(Some(t)),
        Some(Err(e)) => Err(e),
        None => Ok(None),
    }
}

/// The place of the first error in a list of results.
pub open spec fn spec_first_error<T>(x: Seq<Result<T, TiTunError>>) -> Option<int>
    decreases x.len(),
{
    if x.len() == 0 {
        None
    } else {
        match spec_first_error(x.drop_last()) {
            Some(i) => Some(i),
            None => if x.last().is_err() {
                Some(x.len() - 1)
            } else {
                None
            },
        }
    }
}

/// Turn a list of results into the list of what they hold, or into the first
/// error among them.
pub fn lift_err_vec<T>(x: Vec<Result<T, TiTunError>>) -> (r: Result<Vec<T>, TiTunError>)
    ensures
        match spec_first_error(x@) {
            Some(i) => r.is_err() && 0 <= i < x@.len() && x@[i] == Err::<T, TiTunError>(r->Err_0),
            None => r.is_ok() && r->Ok_0@.len() == x@.len() && forall|j: int|
                0 <= j < x@.len() ==> #[trigger] x@[j] == Ok::<T, TiTunError>(r->Ok_0@[j]),
        },
{
    let mut z: Vec<T> = Vec::new();
    let ghost all = x@;
    for y in it: x
        invariant
            it.seq() == all,
            z@.len() == it.index(),
            spec_first_error(all.take(it.index())).is_none(),
            forall|j: int| 0 <= j < it.index() ==> #[trigger] all[j] == Ok::<T, TiTunError>(z@[j]),
    {
        proof {
            let next = all.take(it.index() + 1);
            assert(next.drop_last() =~= all.take(it.index()));
            assert(next.last() == all[it.index()]);
        }
        match y {
            Ok(t) => {
                z.push(t);
            },
            Err(e) => {
                proof {
                    lemma_first_error_extends(all, it.index() + 1);
                }
                return Err(e);
            },
        }
    }
    proof {
        assert(all.take(all.len() as int) =~= all);
    }
    Ok(z)
}

/// An error among the first `n` results is the first error of the whole list
/// where it is the first of those.
pub proof fn lemma_first_error_extends<T>(x: Seq<Result<T, TiTunError>>, n: int)
    requires
        0 <= n <= x.len(),
        spec_first_error(x.take(n)).is_some(),
    ensures
        spec_first_error(x) == spec_first_error(x.take(n)),
    decreases x.len() - n,
{
    if n < x.len() {
        assert(x.drop_last().take(n) =~= x.take(n));
        lemma_first_error_extends(x.drop_last(), n);
    } else {
        assert(x.take(n) =~= x);
    }
}


/// The key and every allowed IP of a peer are well formed.
pub open spec fn spec_peer_ok(p: PeerConfig) -> bool {
    &&& spec_base64_key(p.public_key@).is_some()
    &&& forall|j: int|
        0 <= j < p.allowed_ips@.len() ==> spec_allowed_ip(
            (#[trigger] p.allowed_ips@[j]).0,
            p.allowed_ips@[j].1,
        ).is_some()
}

/// `info` is what the file says of a peer.
pub open spec fn spec_peer_built(p: PeerConfig, info: PeerInfo) -> bool {
    &&& Some(info.peer_pubkey@) == spec_base64_key(p.public_key@)
    &&& info.endpoint == p.endpoint
    &&& info.allowed_ips@.len() == p.allowed_ips@.len()
    &&& forall|j: int|
        0 <= j < p.allowed_ips@.len() ==> Some(#[trigger] info.allowed_ips@[j]) == spec_allowed_ip(
            p.allowed_ips@[j].0,
            p.allowed_ips@[j].1,
        )
    &&& info.wf()
}

/// Every key and every allowed IP of the file is well formed.
pub open spec fn spec_parts_ok(parts: ConfigParts) -> bool {
    &&& parts.psk matches Some(k) ==> spec_base64_key(k@).is_some()
    &&& spec_base64_key(parts.key@).is_some()
    &&& forall|i: int| 0 <= i < parts.peers@.len() ==> spec_peer_ok(#[trigger] parts.peers@[i])
}

/// Build the configuration of one peer.
pub fn build_peer(p: &PeerConfig) -> (r: Result<PeerInfo, TiTunError>)
    ensures
        r.is_ok() == spec_peer_ok(*p),
        r matches Ok(info) ==> spec_peer_built(*p, info),
        r matches Err(e) ==> e is OtherErr,
{
    let pk = match base64_to_arr(p.public_key.as_str()) {
        Ok(k) => k,
        Err(e) => {
            return Err(e);
        },
    };
    let mut ips: Vec<(IpAddress, u32)> = Vec::new();
    let mut j: usize = 0;
    while j < p.allowed_ips.len()
        invariant
            j <= p.allowed_ips@.len(),
            ips@.len() == j,
            forall|n: int|
                0 <= n < j ==> Some(#[trigger] ips@[n]) == spec_allowed_ip(
                    p.allowed_ips@[n].0,
                    p.allowed_ips@[n].1,
                ),
        decreases p.allowed_ips@.len() - j,
    {
        let (a, prefix) = p.allowed_ips[j];
        match allowed_ip(a, prefix) {
            Ok(x) => {
                ips.push(x);
            },
            Err(e) => {
                assert(!spec_allowed_ip(p.allowed_ips@[j as int].0, p.allowed_ips@[j as int].1).is_some());
                return Err(e);
            },
        }
        j = j + 1;
    }
    let info = PeerInfo { peer_pubkey: pk, endpoint: p.endpoint, allowed_ips: ips };
    proof {
        assert forall|n: int| 0 <= n < p.allowed_ips@.len() implies spec_allowed_ip(
            (#[trigger] p.allowed_ips@[n]).0,
            p.allowed_ips@[n].1,
        ).is_some() by {
            assert(Some(ips@[n]) == spec_allowed_ip(p.allowed_ips@[n].0, p.allowed_ips@[n].1));
        }
        assert forall|n: int| 0 <= n < info.allowed_ips@.len() implies (
        #[trigger] info.allowed_ips@[n]).1 <= spec_address_bits(info.allowed_ips@[n].0) by {
            assert(Some(info.allowed_ips@[n]) == spec_allowed_ip(
                p.allowed_ips@[n].0,
                p.allowed_ips@[n].1,
            ));
        }
    }
    Ok(info)
}

impl Config {
    /// Build the configuration from what the file gives: decode the keys,
    /// work out the public key, settle the prefix lengths. The first key
    /// that does not decode to 32 bytes, or the first allowed IP whose
    /// prefix is too long, is the error.
    pub fn build(parts: ConfigParts) -> (r: Result<Config, TiTunError>)
        ensures
            r.is_ok() == spec_parts_ok(parts),
            r matches Err(e) ==> e is OtherErr,
            r matches Ok(c) ==> {
                &&& c.dev_name == parts.dev_name
                &&& c.listen_port == parts.listen_port
                &&& c.on_up == parts.on_up
                &&& c.on_down == parts.on_down
                &&& c.info.wf()
                &&& Some(c.info.key@) == spec_base64_key(parts.key@)
                &&& c.info.psk.is_some() == parts.psk.is_some()
                &&& c.info.psk matches Some(k) ==> Some(k@) == spec_base64_key(parts.psk.unwrap()@)
                &&& c.peers@.len() == parts.peers@.len()
                &&& forall|i: int|
                    0 <= i < parts.peers@.len() ==> spec_peer_built(
                        parts.peers@[i],
                        #[trigger] c.peers@[i],
                    )
            },
    {
        let psk = match &parts.psk {
            Some(k) => match base64_to_arr(k.as_str()) {
                Ok(k) => Some(k),
                Err(e) => {
                    return Err(e);
                },
            },
            None => None,
        };
        let key = match base64_to_arr(parts.key.as_str()) {
            Ok(k) => k,
            Err(e) => {
                return Err(e);
            },
        };
        let mut peers: Vec<PeerInfo> = Vec::new();
        let mut i: usize = 0;
        while i < parts.peers.len()
            invariant
                i <= parts.peers@.len(),
                peers@.len() == i,
                forall|n: int| 0 <= n < i ==> spec_peer_ok(#[trigger] parts.peers@[n]),
                forall|n: int| 0 <= n < i ==> spec_peer_built(parts.peers@[n], #[trigger] peers@[n]),
            decreases parts.peers@.len() - i,
        {
            match build_peer(&parts.peers[i]) {
                Ok(info) => {
                    peers.push(info);
                },
                Err(e) => {
                    return Err(e);
                },
            }
            i = i + 1;
        }
        Ok(
            Config {
                dev_name: parts.dev_name,
                listen_port: parts.listen_port,
                info: WgInfo::new(psk, key),
                peers: peers,
                on_up: parts.on_up,
                on_down: parts.on_down,
            },
        )
    }
}

} // verus!
