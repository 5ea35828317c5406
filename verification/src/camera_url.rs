//! Camera URLs as they may be shown in a log.

use crate::text::{decimal, push_decimal};
use vstd::prelude::*;
use vstd::string::*;

verus! {

/// The parts of a URL that a log line is made of.
pub struct UrlParts {
    pub scheme: String,
    pub username: String,
    pub host: Option<String>,
    pub port: Option<u16>,
    pub path: String,
}

/// The parts of a URL as sequences of characters.
pub struct UrlPartsView {
    pub scheme: Seq<char>,
    pub username: Seq<char>,
    pub host: Option<Seq<char>>,
    pub port: Option<u16>,
    pub path: Seq<char>,
}

impl View for UrlParts {
    type V = UrlPartsView;

    open spec fn view(&self) -> UrlPartsView {
        UrlPartsView {
            scheme: self.scheme@,
            username: self.username@,
            host: match self.host {
                Some(host) => Some(host@),
                None => None,
            },
            port: self.port,
            path: self.path@,
        }
    }
}

/// The parts, where there are any.
pub open spec fn parts_view(parts: Option<UrlParts>) -> Option<UrlPartsView> {
    match parts {
        Some(parts) => Some(parts@),
        None => None,
    }
}

/// What `Url::parse` of the `url` crate makes of a text: the parts that
/// `scheme`, `username`, `host_str`, `port` and `path` read off the URL, or
/// `None` if the text is no absolute URL.
pub uninterp spec fn url_parts(url: Seq<char>) -> Option<UrlPartsView>;

/// `Url::parse` reads an absolute URL; `scheme`, `username`, `host_str`,
/// `port` and `path` give its parts. All of them depend on the text alone.
#[verifier::external_body]
fn parse_url(url: &str) -> (parts: Option<UrlParts>)
    ensures
        parts_view(parts) == url_parts(url@),
{
    url::Url::parse(url).ok().map(|u| UrlParts {
        scheme: u.scheme().to_string(),
        username: u.username().to_string(),
        host: u.host_str().map(|host| host.to_string()),
        port: u.port(),
        path: u.path().to_string(),
    })
}

/// A URL with its credentials hidden: scheme, host, port and path, with `***@`
/// before the host if there is a user name.
pub open spec fn masked(parts: Option<UrlPartsView>) -> Seq<char> {
    match parts {
        Some(u) => {
            let user = if u.username.len() > 0 {
                "***@"@
            } else {
                seq![]
            };
            let host = match u.host {
                Some(host) => host,
                None => "?"@,
            };
            let port = match u.port {
                Some(port) => ":"@ + decimal(port as nat),
                None => seq![],
            };
            u.scheme + "://"@ + user + host + port + u.path
        },
        None => "invalid-url"@,
    }
}

/// Writes the masked form of a URL from its parts.
pub fn mask_parts(parts: &Option<UrlParts>) -> (text: String)
    ensures
        text@ == masked(parts_view(*parts)),
{
    match parts {
        Some(u) => {
            let mut text = u.scheme.clone();
            text.append("://");
            if !u.username.as_str().is_empty() {
                text.append("***@");
            }
            assert(text@ =~= u.scheme@ + "://"@ + if u.username@.len() > 0 {
                "***@"@
            } else {
                seq![]
            });
            match &u.host {
                Some(host) => text.append(host.as_str()),
                None => text.append("?"),
            }
            let ghost had = text@;
            if let Some(port) = u.port {
                text.append(":");
                push_decimal(&mut text, port as u64);
            }
            assert(text@ =~= had + match u.port {
                Some(port) => ":"@ + decimal(port as nat),
                None => seq![],
            });
            text.append(u.path.as_str());
            text
        },
        None => "invalid-url".to_owned(),
    }
}

/// A URL as it may be logged, without its credentials and query.
pub fn mask_url(url: &str) -> (text: String)
    ensures
        text@ == masked(url_parts(url@)),
{
    let parts = parse_url(url);
    mask_parts(&parts)
}

/// The masked form does not tell one user name from another.
pub proof fn law_mask_hides_the_user(a: UrlPartsView, b: UrlPartsView)
    requires
        a.username.len() > 0,
        b.username.len() > 0,
        a.scheme == b.scheme,
        a.host == b.host,
        a.port == b.port,
        a.path == b.path,
    ensures
        masked(Some(a)) == masked(Some(b)),
{
}

/// The view of URL parts tells every part.
pub proof fn law_parts_view_tells_all(parts: UrlParts)
    ensures
        parts_view(Some(parts)) == Some(parts@),
        parts_view(None) is None,
        parts@.scheme == parts.scheme@,
        parts@.username == parts.username@,
        parts@.path == parts.path@,
        parts@.port == parts.port,
        parts@.host is None <==> parts.host is None,
        parts.host matches Some(host) ==> parts@.host == Some(host@),
{
}

/// A URL without user and port is written as scheme, host and path.
pub proof fn law_plain_url_is_kept(scheme: Seq<char>, host: Seq<char>, path: Seq<char>)
    ensures
        masked(
            Some(UrlPartsView { scheme, username: seq![], host: Some(host), port: None, path }),
        ) == scheme + seq![':', '/', '/'] + host + path,
{
    reveal_strlit("://");
    assert("://"@ =~= seq![':', '/', '/']);
    assert(masked(
        Some(UrlPartsView { scheme, username: seq![], host: Some(host), port: None, path }),
    ) =~= scheme + seq![':', '/', '/'] + host + path);
}

/// A user name shows as three stars and an at sign before the host, and changes
/// nothing else.
pub proof fn law_user_shows_as_stars(parts: UrlPartsView)
    requires
        parts.username.len() > 0,
    ensures
        ({
            let plain = masked(Some(UrlPartsView { username: seq![], ..parts }));
            let at = parts.scheme.len() + 3;
            &&& at <= plain.len()
            &&& masked(Some(parts)) == plain.take(at as int) + seq!['*', '*', '*', '@']
                + plain.skip(at as int)
        }),
{
    reveal_strlit("://");
    reveal_strlit("***@");
    let plain = masked(Some(UrlPartsView { username: seq![], ..parts }));
    let at = parts.scheme.len() + 3;
    assert("***@"@ =~= seq!['*', '*', '*', '@']);
    assert(plain.take(at as int) =~= parts.scheme + "://"@);
    assert(masked(Some(parts)) =~= plain.take(at as int) + seq!['*', '*', '*', '@'] + plain.skip(
        at as int,
    ));
}

/// A port stands between host and path as a colon and a numeral of its value.
pub proof fn law_port_stands_after_the_host(parts: UrlPartsView, port: u16)
    ensures
        ({
            let front = masked(Some(UrlPartsView { port: None, path: seq![], ..parts }));
            let text = masked(Some(UrlPartsView { port: Some(port), ..parts }));
            let end = text.len() - parts.path.len();
            &&& front.len() < end
            &&& front.is_prefix_of(text)
            &&& text[front.len() as int] == ':'
            &&& crate::text::numeral_value(text.subrange(front.len() as int + 1, end)) == port
            &&& text.skip(end) == parts.path
            &&& masked(Some(UrlPartsView { port: None, ..parts })) == front + parts.path
        }),
{
    let front = masked(Some(UrlPartsView { port: None, path: seq![], ..parts }));
    let text = masked(Some(UrlPartsView { port: Some(port), ..parts }));
    let number = decimal(port as nat);
    let end = text.len() - parts.path.len();
    crate::text::law_decimal_reads_back(port as nat);
    reveal_strlit(":");
    assert(text =~= front + seq![':'] + number + parts.path);
    assert(text.take(front.len() as int) =~= front);
    assert(text.subrange(front.len() as int + 1, end) =~= number);
    assert(text.skip(end) =~= parts.path);
    assert(masked(Some(UrlPartsView { port: None, ..parts })) =~= front + parts.path);
}

/// A URL without a host is written like one whose host is a question mark.
pub proof fn law_missing_host_is_a_question_mark(parts: UrlPartsView)
    ensures
        masked(Some(UrlPartsView { host: None, ..parts })) == masked(
            Some(UrlPartsView { host: Some(seq!['?']), ..parts }),
        ),
{
    reveal_strlit("?");
    assert("?"@ =~= seq!['?']);
}

} // verus!
