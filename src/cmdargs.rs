//! The settings of the server, the client and the proxy, and what follows
//! from them: the log file's name, the node's public address, the address
//! to reach.

use crate::codec::{dec_str, decimal, parse_unsigned, parse_unsigned_max};
use vstd::prelude::*;

verus! {

broadcast use vstd::string::group_string_axioms;

/// The server's settings.
pub struct ServerConfig {
    /// The server's name, which names its append-only file.
    pub name: Option<String>,
    /// An append-only file path.
    pub aof: Option<String>,
    /// `host:port` of the primary this node replicates.
    pub slaveof: Option<String>,
    pub ip: String,
    pub port: u16,
    /// Cluster mode, counted.
    pub cluster: u8,
    /// Commands to run after start-up.
    pub pre_run: Option<Vec<String>>,
}

/// The client's settings.
pub struct ClientConfig {
    /// `host:port` of the node to talk to.
    pub slaveof: Option<String>,
    /// Commands to run after start-up.
    pub pre_run: Option<Vec<String>>,
}

/// The proxy's settings.
pub struct ProxyConfig {
    /// `host:port` of the proxy's own node.
    pub attach_to: Option<String>,
    /// A cluster configuration file.
    pub cfg: Option<String>,
}

/// The address a client or proxy reaches when none is given.
pub open spec fn default_address() -> Seq<char> {
    seq!['1', '2', '7', '.', '0', '.', '0', '.', '1', ':', '8', '0', '8', '0']
}

/// `host:port` text.
pub open spec fn address_text(host: Seq<char>, port: u16) -> Seq<char> {
    host + seq![':'] + dec_str(port as nat)
}

fn default_address_string() -> (r: String)
    ensures
        r@ == default_address(),
{
    proof {
        reveal_strlit("127.0.0.1:8080");
    }
    let r = "127.0.0.1:8080".to_owned();
    assert(r@ =~= default_address());
    r
}

fn copy_or_default(o: &Option<String>) -> (r: String)
    ensures
        r@ == match o {
            Some(s) => s@,
            None => default_address(),
        },
{
    match o {
        Some(s) => s.clone(),
        None => default_address_string(),
    }
}

impl ServerConfig {
    /// The append-only file: `{name}.aof`, with `server` for a node without
    /// a name.
    pub fn aof_file_name(&self) -> (r: String)
        ensures
            r@ == match self.name {
                Some(n) => n@,
                None => seq!['s', 'e', 'r', 'v', 'e', 'r'],
            } + seq!['.', 'a', 'o', 'f'],
    {
        proof {
            reveal_strlit("server");
            reveal_strlit(".aof");
        }
        let mut r = match &self.name {
            Some(n) => n.clone(),
            None => "server".to_owned(),
        };
        r.append(".aof");
        assert(r@ =~= match self.name {
            Some(n) => n@,
            None => seq!['s', 'e', 'r', 'v', 'e', 'r'],
        } + seq!['.', 'a', 'o', 'f']);
        r
    }

    /// The node's public address, `ip:port`.
    pub fn public_address(&self) -> (r: String)
        ensures
            r@ == address_text(self.ip@, self.port),
    {
        proof {
            reveal_strlit(":");
        }
        let mut r = self.ip.clone();
        r.append(":");
        r.append(decimal(self.port as u128).as_str());
        assert(r@ =~= address_text(self.ip@, self.port));
        r
    }
}

impl ClientConfig {
    /// The node the client talks to.
    pub fn server_address(&self) -> (r: String)
        ensures
            r@ == match self.slaveof {
                Some(s) => s@,
                None => default_address(),
            },
    {
        copy_or_default(&self.slaveof)
    }
}

impl ProxyConfig {
    /// The proxy's own node.
    pub fn self_address(&self) -> (r: String)
        ensures
            r@ == match self.attach_to {
                Some(s) => s@,
                None => default_address(),
            },
    {
        copy_or_default(&self.attach_to)
    }
}

/// The host and port of `host:port` text, cut at its last `:`.
pub open spec fn host_port(s: Seq<char>) -> Option<(Seq<char>, u16)> {
    if exists|i: int| 0 <= i < s.len() && s[i] == ':' {
        let i = choose|i: int|
            0 <= i < s.len() && s[i] == ':' && forall|j: int| i < j < s.len() ==> s[j] != ':';
        match parse_unsigned(s.subrange(i + 1, s.len() as int), u16::MAX as nat) {
            Some(p) => Some((s.subrange(0, i), p as u16)),
            None => None,
        }
    } else {
        None
    }
}

/// Splits `host:port` text at its last `:`; `None` where there is no `:`
/// or the port is not a number below 65536.
pub fn split_host_port(s: &str) -> (r: Option<(String, u16)>)
    ensures
        match host_port(s@) {
            Some((h, p)) => r matches Some(x) && x.0@ == h && x.1 == p,
            None => r is None,
        },
{
    let n = s.unicode_len();
    let mut i: usize = n;
    while i > 0
        invariant
            n == s@.len(),
            i <= n,
            forall|j: int| i <= j < n ==> #[trigger] s@[j] != ':',
        decreases i,
    {
        if s.get_char(i - 1) == ':' {
            let k = i - 1;
            let ghost c = choose|c: int|
                0 <= c < s@.len() && s@[c] == ':' && forall|j: int| c < j < s@.len() ==> s@[j] != ':';
            assert(c == k) by {
                if c < k {
                    assert(s@[k as int] == ':');
                } else if c > k {
                    assert(s@[c] != ':');
                }
            }
            let port = s.substring_char(k + 1, n);
            return match parse_unsigned_max(port, u16::MAX as u128) {
                Some(p) => Some((s.substring_char(0, k).to_owned(), p as u16)),
                None => None,
            };
        }
        i -= 1;
    }
    None
}

} // verus!
