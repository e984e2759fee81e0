//! What services tell each other about themselves: heartbeats, addresses and
//! the login exchange.
use vstd::prelude::*;
use vstd::string::*;

verus! {

/// What a shard reports to the orchestrator, periodically.
#[derive(Debug, Clone)]
pub struct Heartbeat {
    pub id: String,
    pub ip: String,
    pub port: u16,
    pub zone: String,
    pub player_count: usize,
    pub max_players: usize,
}

/// Where a server listens, and the zone that it serves.
#[derive(Debug, Clone)]
pub struct ServerInfo {
    pub ip: String,
    pub port: u16,
    pub zone: String,
}

/// A player's credentials.
#[derive(Debug, Clone)]
pub struct LoginRequest {
    pub username: String,
    pub password: String,
}

/// The id given to a logged-in player and the server that it should join.
#[derive(Debug, Clone)]
pub struct LoginResponse {
    pub player_id: String,
    pub server: ServerInfo,
}

/// The character of a decimal digit.
pub open spec fn digit_char(d: nat) -> char {
    if d == 0 {
        '0'
    } else if d == 1 {
        '1'
    } else if d == 2 {
        '2'
    } else if d == 3 {
        '3'
    } else if d == 4 {
        '4'
    } else if d == 5 {
        '5'
    } else if d == 6 {
        '6'
    } else if d == 7 {
        '7'
    } else if d == 8 {
        '8'
    } else {
        '9'
    }
}

/// The decimal digits of `n`, most significant first, without leading zeros.
pub open spec fn decimal(n: nat) -> Seq<char>
    decreases n,
{
    if n < 10 {
        seq![digit_char(n)]
    } else {
        decimal(n / 10).push(digit_char(n % 10))
    }
}

/// The text of a decimal digit.
fn digit_str(d: u64) -> (s: &'static str)
    requires
        d < 10,
    ensures
        s@ == seq![digit_char(d as nat)],
{
    if d == 0 {
        proof {
            reveal_strlit("0");
        }
        "0"
    } else if d == 1 {
        proof {
            reveal_strlit("1");
        }
        "1"
    } else if d == 2 {
        proof {
            reveal_strlit("2");
        }
        "2"
    } else if d == 3 {
        proof {
            reveal_strlit("3");
        }
        "3"
    } else if d == 4 {
        proof {
            reveal_strlit("4");
        }
        "4"
    } else if d == 5 {
        proof {
            reveal_strlit("5");
        }
        "5"
    } else if d == 6 {
        proof {
            reveal_strlit("6");
        }
        "6"
    } else if d == 7 {
        proof {
            reveal_strlit("7");
        }
        "7"
    } else if d == 8 {
        proof {
            reveal_strlit("8");
        }
        "8"
    } else {
        proof {
            reveal_strlit("9");
        }
        "9"
    }
}

/// Appends the decimal digits of `n` to `out`.
pub fn push_decimal(out: &mut String, n: u64)
    ensures
        final(out)@ == old(out)@ + decimal(n as nat),
    decreases n,
{
    if n >= 10 {
        push_decimal(out, n / 10);
    }
    out.append(digit_str(n % 10));
    assert(out@ =~= old(out)@ + decimal(n as nat));
}

/// `ip:port`, the port in decimal.
pub open spec fn base_text(info: ServerInfo) -> Seq<char> {
    info.ip@ + seq![':'] + decimal(info.port as nat)
}

/// `http://ip:port`.
pub open spec fn base_url_text(info: ServerInfo) -> Seq<char> {
    seq!['h', 't', 't', 'p', ':', '/', '/'] + base_text(info)
}

impl ServerInfo {
    pub fn base(&self) -> (r: String)
        ensures
            r@ == base_text(*self),
    {
        let mut s = self.ip.clone();
        proof {
            reveal_strlit(":");
        }
        s.append(":");
        push_decimal(&mut s, self.port as u64);
        assert(s@ =~= base_text(*self));
        s
    }

    pub fn base_url(&self) -> (r: String)
        ensures
            r@ == base_url_text(*self),
    {
        proof {
            reveal_strlit("http://");
        }
        let mut s = String::from_str("http://");
        let b = self.base();
        s.append(b.as_str());
        assert(s@ =~= base_url_text(*self));
        s
    }

    /// The URL of `path` on this server.
    pub fn http_url(&self, path: &str) -> (r: String)
        ensures
            r@ == base_url_text(*self) + path@,
    {
        let mut s = self.base_url();
        s.append(path);
        s
    }
}

} // verus!
