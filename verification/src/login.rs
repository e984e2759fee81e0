//! Logging in: the gatekeeper checks a player's credentials and hands out a
//! fresh player id and the game server to join; the client turns that id into
//! the number it goes by in the game.
use vstd::prelude::*;
use vstd::string::*;
use crate::server_info::{self, LoginRequest, LoginResponse, ServerInfo};
use crate::text::same_text;

verus! {

/// Why a login is refused.
#[derive(Clone, Copy, Debug, PartialEq, Eq, Structural)]
pub enum LoginError {
    /// The username is empty or the password is wrong.
    Unauthorized,
}

/// A lowercase hexadecimal digit.
pub open spec fn is_lower_hex(c: char) -> bool {
    ('0' <= c && c <= '9') || ('a' <= c && c <= 'f')
}

/// The hyphenated lowercase text of a random (version 4) UUID: five groups of
/// hexadecimal digits, 8-4-4-4-12, the version digit `4` opening the third
/// group and the variant digit (8, 9, a or b) opening the fourth.
pub open spec fn uuid_v4_text(s: Seq<char>) -> bool {
    &&& s.len() == 36
    &&& forall|i: int|
        0 <= i < 36 ==> if i == 8 || i == 13 || i == 18 || i == 23 {
            #[trigger] s[i] == '-'
        } else {
            is_lower_hex(s[i])
        }
    &&& s[14] == '4'
    &&& (s[19] == '8' || s[19] == '9' || s[19] == 'a' || s[19] == 'b')
}

/// Calls `uuid::Uuid::new_v4` and formats the id with `to_string`. The id is
/// random: the contract says only that it is the text of a version-4 UUID in
/// the hyphenated lowercase form that `Display` writes, nothing of its digits.
#[verifier::external_body]
fn new_player_id() -> (r: String)
    ensures
        uuid_v4_text(r@),
{
    uuid::Uuid::new_v4().to_string()
}

/// The gatekeeper accepts a username that is not empty with the password `1234`.
pub open spec fn credentials_accepted(req: LoginRequest) -> bool {
    req.username@.len() > 0 && req.password@ == seq!['1', '2', '3', '4']
}

/// The game server that logged-in players are sent to: `127.0.0.1:5115`, zone `N/A`.
pub open spec fn is_game_server(s: ServerInfo) -> bool {
    &&& s.ip@ == seq!['1', '2', '7', '.', '0', '.', '0', '.', '1']
    &&& s.port == 5115
    &&& s.zone@ == seq!['N', '/', 'A']
}

/// Answers a login with the player id to hand out.
pub fn login_with_id(req: &LoginRequest, player_id: String) -> (r: Result<LoginResponse, LoginError>)
    ensures
        r is Ok <==> credentials_accepted(*req),
        r matches Ok(resp) ==> resp.player_id@ == player_id@ && is_game_server(resp.server),
        r matches Err(e) ==> e == LoginError::Unauthorized,
{
    if req.username.unicode_len() == 0 {
        return Err(LoginError::Unauthorized);
    }
    proof {
        reveal_strlit("1234");
    }
    if !same_text(req.password.as_str(), "1234") {
        assert("1234"@ =~= seq!['1', '2', '3', '4']);
        return Err(LoginError::Unauthorized);
    }
    assert("1234"@ =~= seq!['1', '2', '3', '4']);
    proof {
        reveal_strlit("127.0.0.1");
        reveal_strlit("N/A");
    }
    let server = ServerInfo { ip: String::from_str("127.0.0.1"), port: 5115, zone: String::from_str("N/A") };
    assert(server.ip@ =~= seq!['1', '2', '7', '.', '0', '.', '0', '.', '1']);
    assert(server.zone@ =~= seq!['N', '/', 'A']);
    Ok(LoginResponse { player_id, server })
}

/// Answers a login: a fresh random player id and the game server, or a refusal.
pub fn login(req: &LoginRequest) -> (r: Result<LoginResponse, LoginError>)
    ensures
        r is Ok <==> credentials_accepted(*req),
        r matches Ok(resp) ==> uuid_v4_text(resp.player_id@) && is_game_server(resp.server),
        r matches Err(e) ==> e == LoginError::Unauthorized,
{
    if req.username.unicode_len() == 0 {
        return Err(LoginError::Unauthorized);
    }
    proof {
        reveal_strlit("1234");
    }
    if !same_text(req.password.as_str(), "1234") {
        assert("1234"@ =~= seq!['1', '2', '3', '4']);
        return Err(LoginError::Unauthorized);
    }
    login_with_id(req, new_player_id())
}

/// FNV-1a over bytes: from the offset basis, each byte is xor-ed in and the
/// hash multiplied by the FNV prime, wrapping.
pub open spec fn fnv1a(bytes: Seq<u8>) -> u32
    decreases bytes.len(),
{
    if bytes.len() == 0 {
        0x811c_9dc5
    } else {
        vstd::wrapping::u32_specs::wrapping_mul(
            fnv1a(bytes.drop_last()) ^ (bytes.last() as u32),
            0x0100_0193,
        )
    }
}

/// The number a player goes by in the game: the FNV-1a hash of its id's UTF-8 bytes.
pub fn player_id_to_u32(s: &str) -> (r: u32)
    ensures
        r == fnv1a(s.spec_bytes()),
{
    let bytes = s.as_bytes();
    let mut hash: u32 = 0x811c_9dc5;
    let mut i: usize = 0;
    assert(bytes@.take(0) =~= Seq::<u8>::empty());
    while i < bytes.len()
        invariant
            i <= bytes@.len(),
            hash == fnv1a(bytes@.take(i as int)),
        decreases bytes@.len() - i,
    {
        assert(bytes@.take(i + 1).drop_last() =~= bytes@.take(i as int));
        hash = hash ^ (bytes[i] as u32);
        hash = hash.wrapping_mul(0x0100_0193);
        i += 1;
    }
    assert(bytes@.take(i as int) =~= bytes@);
    hash
}

/// Where the gatekeeper listens.
#[derive(Clone)]
pub struct GatekeeperInfo(pub ServerInfo);

impl GatekeeperInfo {
    /// `http://ip:port/login`.
    pub fn login_url(&self) -> (r: String)
        ensures
            r@ == server_info::base_url_text(self.0) + seq!['/', 'l', 'o', 'g', 'i', 'n'],
    {
        proof {
            reveal_strlit("/login");
        }
        let r = self.0.http_url("/login");
        assert(r@ =~= server_info::base_url_text(self.0) + seq!['/', 'l', 'o', 'g', 'i', 'n']);
        r
    }

    /// `http://ip:port/health`.
    pub fn health_url(&self) -> (r: String)
        ensures
            r@ == server_info::base_url_text(self.0) + seq!['/', 'h', 'e', 'a', 'l', 't', 'h'],
    {
        proof {
            reveal_strlit("/health");
        }
        let r = self.0.http_url("/health");
        assert(r@ =~= server_info::base_url_text(self.0) + seq!['/', 'h', 'e', 'a', 'l', 't', 'h']);
        r
    }
}

} // verus!
