//! The record of one server session, derived from its link and its folder.
use vstd::prelude::*;
use crate::error::LauncherError;
use crate::text::{chars_of, file_name, final_component, string_of};

verus! {

/// The query parameter that carries a server's access token.
pub const TOKEN_PARAM: &'static str = "token";

/// Whether `url::Url::parse` accepts `link`.
pub uninterp spec fn url_valid(link: Seq<char>) -> bool;

/// `Url::port` of the parsed `link`: its explicit port, absent where that is
/// the scheme's default.
pub uninterp spec fn url_port(link: Seq<char>) -> Option<u16>;

/// The Unicode serialization of the parsed `link`'s origin.
pub uninterp spec fn url_origin(link: Seq<char>) -> Seq<char>;

/// The key/value pairs of the parsed `link`'s query, in order, decoded as
/// `application/x-www-form-urlencoded`: percent escapes decoded, `+` read as a
/// space, and invalid UTF-8 replaced.
pub uninterp spec fn url_query(link: Seq<char>) -> Seq<(Seq<char>, Seq<char>)>;

/// What the session logic reads of a parsed URL.
pub(crate) struct UrlParts {
    pub port: Option<u16>,
    pub origin: String,
    pub query: Vec<(String, String)>,
}

pub open spec fn pairs_view(q: Seq<(String, String)>) -> Seq<(Seq<char>, Seq<char>)> {
    q.map_values(|p: (String, String)| (p.0@, p.1@))
}

pub open spec fn opt_view(o: Option<String>) -> Option<Seq<char>> {
    match o {
        Some(s) => Some(s@),
        None => None,
    }
}

/// Relies on `url::Url::parse` to accept or refuse `link`, and on the parsed
/// URL's `port`, `origin().unicode_serialization()` and `query_pairs`.
#[verifier::external_body]
fn parse_link(link: &str) -> (r: Option<UrlParts>)
    ensures
        r is Some <==> url_valid(link@),
        r matches Some(p) ==> p.port == url_port(link@) && p.origin@ == url_origin(link@)
            && pairs_view(p.query@) == url_query(link@),
{
    let url = url::Url::parse(link).ok()?;
    Some(UrlParts {
        port: url.port(),
        origin: url.origin().unicode_serialization(),
        query: url.query_pairs().map(|(k, v)| (k.into_owned(), v.into_owned())).collect(),
    })
}

/// The value of the last `token` pair among `pairs`, if there is one.
pub open spec fn query_token(pairs: Seq<(Seq<char>, Seq<char>)>) -> Option<Seq<char>>
    decreases pairs.len(),
{
    if pairs.len() == 0 {
        None
    } else if pairs.last().0 == TOKEN_PARAM@ {
        Some(pairs.last().1)
    } else {
        query_token(pairs.drop_last())
    }
}

/// What `query_token` picks: the value of the last `token` pair, and none
/// exactly where no pair has that key.
pub proof fn lemma_query_token(pairs: Seq<(Seq<char>, Seq<char>)>)
    ensures
        query_token(pairs) is None <==> forall|k: int|
            0 <= k < pairs.len() ==> (#[trigger] pairs[k]).0 != TOKEN_PARAM@,
        query_token(pairs) matches Some(v) ==> exists|k: int|
            0 <= k < pairs.len() && #[trigger] pairs[k] == (TOKEN_PARAM@, v) && forall|m: int|
                k < m < pairs.len() ==> (#[trigger] pairs[m]).0 != TOKEN_PARAM@,
    decreases pairs.len(),
{
    if pairs.len() > 0 {
        let rest = pairs.drop_last();
        lemma_query_token(rest);
        let last = pairs.len() - 1;
        if pairs.last().0 == TOKEN_PARAM@ {
            assert(pairs[last] == (TOKEN_PARAM@, pairs.last().1));
        } else {
            assert forall|k: int| 0 <= k < rest.len() implies rest[k] == pairs[k] by {}
            if let Some(v) = query_token(rest) {
                let k = choose|k: int|
                    0 <= k < rest.len() && #[trigger] rest[k] == (TOKEN_PARAM@, v) && forall|m: int|
                        k < m < rest.len() ==> (#[trigger] rest[m]).0 != TOKEN_PARAM@;
                assert(pairs[k] == (TOKEN_PARAM@, v));
                assert forall|m: int| k < m < pairs.len() implies (#[trigger] pairs[m]).0 != TOKEN_PARAM@ by {
                    if m < last {
                        assert(pairs[m] == rest[m]);
                    }
                }
            }
        }
    }
}

/// A session's token is the value of its link's `token` query parameter (the
/// last one, where there are several), and is absent exactly where the link's
/// query has no such parameter.
pub proof fn lemma_session_token(link: Seq<char>, folder: Seq<char>)
    requires
        session_of(link, folder) is Ok,
    ensures
        session_of(link, folder)->Ok_0.token is None <==> forall|k: int|
            0 <= k < url_query(link).len() ==> (#[trigger] url_query(link)[k]).0 != TOKEN_PARAM@,
        session_of(link, folder)->Ok_0.token matches Some(v) ==> exists|k: int|
            0 <= k < url_query(link).len() && #[trigger] url_query(link)[k] == (TOKEN_PARAM@, v)
                && forall|m: int|
                k < m < url_query(link).len() ==> (#[trigger] url_query(link)[m]).0 != TOKEN_PARAM@,
{
    lemma_query_token(url_query(link));
}

/// One running server: where to reach it and which folder it serves.
#[derive(Clone, Debug)]
pub struct Server {
    /// The full URL of the server, token included.
    pub link: String,
    /// The server's root directory.
    pub folder: String,
    /// The final component of `folder`.
    pub title: String,
    /// The explicit port of `link`.
    pub port: Option<u16>,
    /// The origin of `link`, which identifies the session.
    pub origin: Option<String>,
    /// The `token` query parameter of `link`.
    pub token: Option<String>,
}

pub struct ServerView {
    pub link: Seq<char>,
    pub folder: Seq<char>,
    pub title: Seq<char>,
    pub port: Option<u16>,
    pub origin: Option<Seq<char>>,
    pub token: Option<Seq<char>>,
}

impl View for Server {
    type V = ServerView;

    open spec fn view(&self) -> ServerView {
        ServerView {
            link: self.link@,
            folder: self.folder@,
            title: self.title@,
            port: self.port,
            origin: opt_view(self.origin),
            token: opt_view(self.token),
        }
    }
}

/// The session for `link` and `folder`: the folder must have a final component
/// and the link must parse as a URL, in that order.
pub open spec fn session_of(link: Seq<char>, folder: Seq<char>) -> Result<ServerView, LauncherError> {
    match file_name(folder) {
        None => Err(LauncherError::InvalidFolderPath),
        Some(title) => if url_valid(link) {
            Ok(
                ServerView {
                    link,
                    folder,
                    title,
                    port: url_port(link),
                    origin: Some(url_origin(link)),
                    token: query_token(url_query(link)),
                },
            )
        } else {
            Err(LauncherError::InvalidUrl)
        },
    }
}

/// The value of the last `token` pair of `query`.
pub fn token_of(query: &Vec<(String, String)>) -> (r: Option<String>)
    ensures
        opt_view(r) == query_token(pairs_view(query@)),
{
    let key = TOKEN_PARAM.to_owned();
    let mut token: Option<String> = None;
    let mut i: usize = 0;
    while i < query.len()
        invariant
            0 <= i <= query.len(),
            key@ == TOKEN_PARAM@,
            opt_view(token) == query_token(pairs_view(query@.take(i as int))),
        decreases query.len() - i,
    {
        proof {
            assert(pairs_view(query@.take(i + 1)).drop_last() =~= pairs_view(query@.take(i as int)));
        }
        if query[i].0 == key {
            token = Some(query[i].1.clone());
        }
        i = i + 1;
    }
    assert(query@.take(i as int) =~= query@);
    token
}

impl Server {
    /// A copy of this record.
    pub fn copy(&self) -> (r: Server)
        ensures
            r@ == self@,
    {
        let origin = match &self.origin {
            Some(o) => Some(o.clone()),
            None => None,
        };
        let token = match &self.token {
            Some(t) => Some(t.clone()),
            None => None,
        };
        Server {
            link: self.link.clone(),
            folder: self.folder.clone(),
            title: self.title.clone(),
            port: self.port,
            origin,
            token,
        }
    }

    /// Builds the session record for the server reached at `link`, serving `folder`.
    pub fn new(link: &str, folder: &str) -> (r: Result<Server, LauncherError>)
        ensures
            match r {
                Ok(s) => session_of(link@, folder@) == Ok::<ServerView, LauncherError>(s@),
                Err(e) => session_of(link@, folder@) == Err::<ServerView, LauncherError>(e),
            },
    {
        let folder_chars = chars_of(folder);
        let title = match final_component(&folder_chars) {
            Some(t) => string_of(&t),
            None => return Err(LauncherError::InvalidFolderPath),
        };
        let parts = match parse_link(link) {
            Some(p) => p,
            None => return Err(LauncherError::InvalidUrl),
        };
        let token = token_of(&parts.query);
        Ok(
            Server {
                link: link.to_owned(),
                folder: folder.to_owned(),
                title,
                port: parts.port,
                origin: Some(parts.origin),
                token,
            },
        )
    }
}

} // verus!
