//! What a launch hands to the server program: a port, a fresh token, the
//! command-line arguments, and the link that reaches the server afterwards.
use vstd::prelude::*;
use crate::error::LauncherError;
use crate::session::Server;
use crate::text::{chars_of, string_of};

verus! {

/// The tag in front of every generated token.
pub const TOKEN_TAG: &'static str = "jupyter:";

/// The number of random characters in a generated token.
pub const TOKEN_RANDOM_LEN: usize = 48;

/// The link to a local server, up to its port.
pub const LOCAL_BASE: &'static str = "http://localhost:";

/// The path and query of a local server's link, up to its token.
pub const LAB_PATH: &'static str = "/lab?token=";

pub open spec fn is_alphanumeric(c: char) -> bool {
    ('0' <= c && c <= '9') || ('A' <= c && c <= 'Z') || ('a' <= c && c <= 'z')
}

pub open spec fn digit(d: nat) -> char {
    ((d + 48) as u8) as char
}

/// The decimal digits of `n`, most significant first, without leading zeros.
pub open spec fn decimal(n: nat) -> Seq<char>
    decreases n,
{
    if n < 10 {
        seq![digit(n)]
    } else {
        decimal(n / 10).push(digit(n % 10))
    }
}

pub open spec fn strings_view(v: Seq<String>) -> Seq<Seq<char>> {
    v.map_values(|s: String| s@)
}

/// The decimal digits of `n`.
pub fn decimal_chars(n: u16) -> (r: Vec<char>)
    ensures
        r@ == decimal(n as nat),
    decreases n,
{
    if n < 10 {
        let mut v: Vec<char> = Vec::new();
        v.push(((n as u8) + 48) as char);
        assert(v@ =~= seq![digit(n as nat)]);
        v
    } else {
        let mut v = decimal_chars(n / 10);
        v.push((((n % 10) as u8) + 48) as char);
        v
    }
}

/// `n` written in decimal.
pub fn decimal_string(n: u16) -> (r: String)
    ensures
        r@ == decimal(n as nat),
{
    string_of(&decimal_chars(n))
}

/// Appends the characters of `s` to `v`.
pub fn push_str(v: &mut Vec<char>, s: &str)
    ensures
        final(v)@ == old(v)@ + s@,
{
    let c = chars_of(s);
    let mut i: usize = 0;
    while i < c.len()
        invariant
            0 <= i <= c.len(),
            c@ == s@,
            v@ == old(v)@ + c@.take(i as int),
        decreases c.len() - i,
    {
        v.push(c[i]);
        assert(c@.take(i + 1) =~= c@.take(i as int).push(c@[i as int]));
        i = i + 1;
    }
    assert(c@.take(i as int) =~= c@);
}

/// The link that reaches a local server on `port` with `token`.
pub fn lab_url(port: u16, token: &str) -> (r: String)
    ensures
        r@ == LOCAL_BASE@ + decimal(port as nat) + LAB_PATH@ + token@,
{
    let mut v: Vec<char> = Vec::new();
    push_str(&mut v, LOCAL_BASE);
    let digits = decimal_chars(port);
    let mut i: usize = 0;
    let ghost base = v@;
    while i < digits.len()
        invariant
            0 <= i <= digits.len(),
            v@ == base + digits@.take(i as int),
        decreases digits.len() - i,
    {
        v.push(digits[i]);
        assert(digits@.take(i + 1) =~= digits@.take(i as int).push(digits@[i as int]));
        i = i + 1;
    }
    assert(digits@.take(i as int) =~= digits@);
    push_str(&mut v, LAB_PATH);
    push_str(&mut v, token);
    assert(v@ =~= LOCAL_BASE@ + decimal(port as nat) + LAB_PATH@ + token@);
    string_of(&v)
}

/// The arguments that start a server on `port`, with `token`, serving `folder`,
/// without a browser, and open to being framed by the launcher's windows.
pub fn launch_args(port: u16, token: &str, folder: &str) -> (r: Vec<String>)
    ensures
        strings_view(r@) == seq![
            "lab"@,
            "--no-browser"@,
            "--expose-app-in-browser"@,
            "--ServerApp.port"@,
            decimal(port as nat),
            "--ServerApp.password=''"@,
            "--ServerApp.token"@,
            token@,
            "--ServerApp.tornado_settings={'headers': {'Content-Security-Policy': 'frame-ancestors *'}}"@,
            "--ServerApp.allow_origin=*"@,
            "--ServerApp.allow_credentials=True"@,
            "--ServerApp.root_dir"@,
            folder@,
        ],
{
    let mut r: Vec<String> = Vec::new();
    r.push("lab".to_owned());
    r.push("--no-browser".to_owned());
    r.push("--expose-app-in-browser".to_owned());
    r.push("--ServerApp.port".to_owned());
    r.push(decimal_string(port));
    r.push("--ServerApp.password=''".to_owned());
    r.push("--ServerApp.token".to_owned());
    r.push(token.to_owned());
    r.push(
        "--ServerApp.tornado_settings={'headers': {'Content-Security-Policy': 'frame-ancestors *'}}".to_owned(),
    );
    r.push("--ServerApp.allow_origin=*".to_owned());
    r.push("--ServerApp.allow_credentials=True".to_owned());
    r.push("--ServerApp.root_dir".to_owned());
    r.push(folder.to_owned());
    assert(strings_view(r@) =~= seq![
        "lab"@,
        "--no-browser"@,
        "--expose-app-in-browser"@,
        "--ServerApp.port"@,
        decimal(port as nat),
        "--ServerApp.password=''"@,
        "--ServerApp.token"@,
        token@,
        "--ServerApp.tornado_settings={'headers': {'Content-Security-Policy': 'frame-ancestors *'}}"@,
        "--ServerApp.allow_origin=*"@,
        "--ServerApp.allow_credentials=True"@,
        "--ServerApp.root_dir"@,
        folder@,
    ]);
    r
}

impl Server {
    /// The arguments that stop this server, where its link names a port.
    pub fn stop_args(&self) -> (r: Option<Vec<String>>)
        ensures
            self.port is None ==> r is None,
            self.port matches Some(p) ==> r matches Some(v) && strings_view(v@) == seq![
                "lab"@,
                "stop"@,
                decimal(p as nat),
            ],
    {
        match self.port {
            None => None,
            Some(p) => {
                let mut v: Vec<String> = Vec::new();
                v.push("lab".to_owned());
                v.push("stop".to_owned());
                v.push(decimal_string(p));
                assert(strings_view(v@) =~= seq!["lab"@, "stop"@, decimal(p as nat)]);
                Some(v)
            },
        }
    }
}

/// Relies on `rand`'s `Alphanumeric` distribution, sampled `n` times from the
/// thread-local generator: each byte is an ASCII letter or digit.
#[verifier::external_body]
fn random_alphanumeric(n: usize) -> (r: Vec<u8>)
    ensures
        r@.len() == n,
        forall|i: int| 0 <= i < n ==> is_alphanumeric(#[trigger] r@[i] as char),
{
    rand::Rng::sample_iter(rand::thread_rng(), &rand::distributions::Alphanumeric).take(n).collect()
}

/// The token made of the tag followed by the characters of `random`.
pub fn token_from(random: &Vec<u8>) -> (r: String)
    ensures
        r@ == TOKEN_TAG@ + random@.map_values(|b: u8| b as char),
{
    let mut v: Vec<char> = Vec::new();
    push_str(&mut v, TOKEN_TAG);
    let ghost tag = v@;
    let mut i: usize = 0;
    while i < random.len()
        invariant
            0 <= i <= random.len(),
            tag == TOKEN_TAG@,
            v@ == tag + random@.take(i as int).map_values(|b: u8| b as char),
        decreases random.len() - i,
    {
        v.push(random[i] as char);
        assert(random@.take(i + 1).map_values(|b: u8| b as char) =~= random@.take(
            i as int,
        ).map_values(|b: u8| b as char).push(random@[i as int] as char));
        i = i + 1;
    }
    assert(random@.take(i as int) =~= random@);
    string_of(&v)
}

/// A fresh token: the tag, then random ASCII letters and digits.
pub fn gen_token() -> (r: String)
    ensures
        r@.len() == TOKEN_TAG@.len() + TOKEN_RANDOM_LEN,
        r@.take(TOKEN_TAG@.len() as int) == TOKEN_TAG@,
        forall|i: int|
            TOKEN_TAG@.len() <= i < r@.len() ==> is_alphanumeric(#[trigger] r@[i]),
{
    let random = random_alphanumeric(TOKEN_RANDOM_LEN);
    let r = token_from(&random);
    let ghost n = TOKEN_TAG@.len() as int;
    assert(r@.take(n) =~= TOKEN_TAG@);
    assert forall|i: int| n <= i < r@.len() implies is_alphanumeric(#[trigger] r@[i]) by {
        assert(r@[i] == random@[i - n] as char);
    }
    r
}

/// Relies on `portpicker::pick_unused_port`, which asks the operating system:
/// a port it finds is drawn from 15000..25000 or assigned by the system, so
/// never zero.
#[verifier::external_body]
fn pick_port() -> (r: Option<u16>)
    ensures
        r matches Some(p) ==> p != 0,
{
    portpicker::pick_unused_port()
}

/// A port that no other process was using when it was picked.
pub fn get_free_port() -> (r: Result<u16, LauncherError>)
    ensures
        r is Err ==> r == Err::<u16, LauncherError>(LauncherError::PortAllocationFailed),
        r matches Ok(p) ==> p != 0,
{
    match pick_port() {
        Some(p) => Ok(p),
        None => Err(LauncherError::PortAllocationFailed),
    }
}

} // verus!
