use crate::library::command::optional_view;
use vstd::prelude::*;

verus! {

/// The Docker host that commands go to.
pub struct Host {
    pub ssh: Option<Ssh>,
    pub url: String,
}

/// How to reach a Docker host over SSH.
pub struct Ssh {
    pub hostname: String,
    pub port: Option<u16>,
    pub user: Option<String>,
}

/// The parts of a URL that a Docker host is read from.
pub struct UrlParts {
    pub scheme: String,
    pub host: Option<String>,
    pub port: Option<u16>,
    pub username: String,
}

/// The value of the parts of a URL: scheme, host, port and user name.
pub open spec fn parts_view(parts: UrlParts) -> (Seq<char>, Option<Seq<char>>, Option<u16>, Seq<char>) {
    (parts.scheme@, optional_view(parts.host), parts.port, parts.username@)
}

/// What `url::Url::parse` makes of `text`: its scheme, host, explicit port and user name,
/// or the description of why it is not a URL.
pub uninterp spec fn parsed_url(text: Seq<char>) -> Result<
    (Seq<char>, Option<Seq<char>>, Option<u16>, Seq<char>),
    Seq<char>,
>;

/// The value of a parse result.
pub open spec fn parse_view(r: Result<UrlParts, String>) -> Result<
    (Seq<char>, Option<Seq<char>>, Option<u16>, Seq<char>),
    Seq<char>,
> {
    match r {
        Ok(parts) => Ok(parts_view(parts)),
        Err(e) => Err(e@),
    }
}

/// `url::Url::parse`: the scheme, host (`host_str`), port (`port`, none where it is the
/// default of the scheme) and user name (`username`) of the URL `text`, or the text of
/// the parse error. What they are is named, not stated.
#[verifier::external_body]
fn parse_url(text: &str) -> (parts: Result<UrlParts, String>)
    ensures
        parse_view(parts) == parsed_url(text@),
{
    match url::Url::parse(text) {
        Ok(url) => Ok(
            UrlParts {
                scheme: url.scheme().to_owned(),
                host: match url.host_str() {
                    Some(host) => Some(host.to_owned()),
                    None => None,
                },
                port: url.port(),
                username: url.username().to_owned(),
            },
        ),
        Err(error) => Err(error.to_string()),
    }
}

/// A URL that is not one.
pub struct UnparsableUrl {
    pub url: String,
    pub reason: String,
}

/// The Docker host at a URL with the given parts: reached over SSH where the scheme is
/// `ssh`, with the host of the URL (empty if it has none), its port and its user name
/// (none if empty).
pub open spec fn host_of(
    url: Seq<char>,
    parts: (Seq<char>, Option<Seq<char>>, Option<u16>, Seq<char>),
    host: Host,
) -> bool {
    &&& host.url@ == url
    &&& if parts.0 == "ssh"@ {
        host.ssh matches Some(ssh) && ssh.hostname@ == match parts.1 {
            Some(h) => h,
            None => Seq::<char>::empty(),
        } && ssh.port == parts.2 && optional_view(ssh.user) == if parts.3.len() == 0 {
            None
        } else {
            Some(parts.3)
        }
    } else {
        host.ssh is None
    }
}

/// The Docker host at `url`, given the parts that parsing it gave.
pub fn host_from_parts(url: String, parts: UrlParts) -> (host: Host)
    ensures
        host_of(url@, parts_view(parts), host),
{
    let is_ssh = parts.scheme == "ssh".to_owned();
    let ssh = if is_ssh {
        let user = if parts.username.as_str().is_empty() {
            None
        } else {
            Some(parts.username)
        };
        Some(
            Ssh {
                hostname: match parts.host {
                    Some(h) => h,
                    None => String::new(),
                },
                port: parts.port,
                user,
            },
        )
    } else {
        None
    };
    Host { ssh, url }
}

/// The Docker host at the URL `effective_url`, or why that is not a URL.
pub fn get(effective_url: String) -> (host: Result<Host, UnparsableUrl>)
    ensures
        match parsed_url(effective_url@) {
            Ok(parts) => host matches Ok(h) && host_of(effective_url@, parts, h),
            Err(reason) => host matches Err(e) && e.url@ == effective_url@ && e.reason@ == reason,
        },
{
    match parse_url(effective_url.as_str()) {
        Ok(parts) => Ok(host_from_parts(effective_url, parts)),
        Err(reason) => Err(UnparsableUrl { url: effective_url, reason }),
    }
}

/// The value of the environment variable `DOCKER_HOST`.
pub enum Variable {
    NotPresent,
    NotUnicode(String),
    Present(String),
}

/// Where the URL of the Docker host comes from.
pub enum UrlChoice {
    /// This URL.
    Url(String),
    /// The endpoint of the current Docker context.
    CurrentContext,
    /// None: `DOCKER_HOST` holds this, which is not Unicode.
    NotUnicode(String),
}

/// The name of the environment variable that may hold the URL of the Docker host.
pub const ENVIRONMENT_VARIABLE: &'static str = "DOCKER_HOST";

/// Where the URL of the Docker host comes from: the URL passed to override it, else the
/// value of `DOCKER_HOST`, else the current Docker context.
pub fn get_effective_url(url_override: Option<String>, variable: Variable) -> (choice: UrlChoice)
    ensures
        match url_override {
            Some(url) => choice == UrlChoice::Url(url),
            None => match variable {
                Variable::NotPresent => choice is CurrentContext,
                Variable::NotUnicode(value) => choice == UrlChoice::NotUnicode(value),
                Variable::Present(url) => choice == UrlChoice::Url(url),
            },
        },
{
    match url_override {
        Some(url) => UrlChoice::Url(url),
        None => match variable {
            Variable::NotPresent => UrlChoice::CurrentContext,
            Variable::NotUnicode(value) => UrlChoice::NotUnicode(value),
            Variable::Present(url) => UrlChoice::Url(url),
        },
    }
}

} // verus!
