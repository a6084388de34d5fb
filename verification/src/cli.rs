//! The MQTT broker to connect to, given as a URL.
//!
//! Examples: `mqtt://localhost`, `mqtt://localhost:1883`, `mqtts://localhost`,
//! `mqtts://localhost:8883`, `ws://localhost/path`, `ws://localhost:9001/path`,
//! `wss://localhost/path`, `wss://localhost:9001/path`.
use vstd::prelude::*;

use url::ParseError;

use crate::decimal::{decimal, spec_decimal};
use crate::text::str_eq;

verus! {

#[verifier::external_type_specification]
#[verifier::external_body]
pub struct ExParseError(ParseError);

/// The parts of a parsed URL that decide how to connect.
#[derive(Clone, Debug)]
pub struct UrlParts {
    /// The scheme, lowercase, without `:`.
    pub scheme: String,
    /// The host, when the URL has one.
    pub host: Option<String>,
    /// The port, when one is given and it is not the scheme's default.
    pub port: Option<u16>,
    /// The path, `/` or empty when there is none.
    pub path: String,
    /// The query, without `?`.
    pub query: Option<String>,
    /// The user name; empty when there is none.
    pub username: String,
    /// The password.
    pub password: Option<String>,
    /// The whole URL, serialized.
    pub text: String,
    /// The URL as `Debug` shows it.
    pub debug: String,
}

/// The characters of the parts of a URL.
pub struct UrlView {
    pub scheme: Seq<char>,
    pub host: Option<Seq<char>>,
    pub port: Option<u16>,
    pub path: Seq<char>,
    pub query: Option<Seq<char>>,
    pub username: Seq<char>,
    pub password: Option<Seq<char>>,
    pub text: Seq<char>,
    pub debug: Seq<char>,
}

/// The characters of an optional string.
pub open spec fn opt_chars(s: Option<String>) -> Option<Seq<char>> {
    match s {
        Some(s) => Some(s@),
        None => None,
    }
}

impl View for UrlParts {
    type V = UrlView;

    open spec fn view(&self) -> UrlView {
        UrlView {
            scheme: self.scheme@,
            host: opt_chars(self.host),
            port: self.port,
            path: self.path@,
            query: opt_chars(self.query),
            username: self.username@,
            password: opt_chars(self.password),
            text: self.text@,
            debug: self.debug@,
        }
    }
}

/// What `url::Url::parse` makes of a text: the parts of the URL, or `None`
/// when it refuses the text.
pub uninterp spec fn parsed_url(input: Seq<char>) -> Option<UrlView>;

/// Calls `url::Url::parse` and reads the parts of the URL with its getters:
/// `scheme`, `host_str`, `port`, `path`, `query`, `username`, `password` and
/// `as_str`, and formats it with `Debug`. The result is named by `parsed_url`; the URL standard it follows
/// is not written out here.
#[verifier::external_body]
fn parse_url(input: &str) -> (parsed: Result<UrlParts, ParseError>)
    ensures
        match parsed {
            Ok(url) => parsed_url(input@) == Some(url@),
            Err(_) => parsed_url(input@) is None,
        },
{
    let url = url::Url::parse(input)?;
    Ok(UrlParts {
        scheme: url.scheme().to_owned(),
        host: url.host_str().map(ToOwned::to_owned),
        port: url.port(),
        path: url.path().to_owned(),
        query: url.query().map(ToOwned::to_owned),
        username: url.username().to_owned(),
        password: url.password().map(ToOwned::to_owned),
        text: url.as_str().to_owned(),
        debug: format!("{url:?}"),
    })
}

/// How `Debug` shows a text: quoted, with special characters escaped.
pub uninterp spec fn debug_quoted(text: Seq<char>) -> Seq<char>;

/// Formats a text with `Debug` (`str`'s implementation): in double quotes,
/// with quotes, backslashes and control characters escaped. The escaping
/// rules are not written out here.
#[verifier::external_body]
fn quote(text: &str) -> (quoted: String)
    ensures
        quoted@ == debug_quoted(text@),
{
    format!("{text:?}")
}

/// The MQTT broker to connect to.
#[derive(Clone, Debug)]
pub enum Broker {
    Tcp { host: String, port: u16 },
    Ssl { host: String, port: u16 },
    WebSocket(UrlParts),
    WebSocketSsl(UrlParts),
}

/// Why a URL does not name a broker.
#[derive(Debug)]
pub enum BrokerError {
    /// The text is no URL.
    InvalidUrl(ParseError),
    MissingHost,
    /// `mqtt` and `mqtts` take a host and a port but no path.
    PathOnTcp,
    QueryGiven,
    UsernameGiven,
    PasswordGiven,
    PortZero,
    UnsupportedScheme,
}

impl BrokerError {
    /// The explanation shown to the user; `None` for an invalid URL, where
    /// the parser's own message is shown.
    pub fn message(&self) -> (text: Option<&'static str>)
        ensures
            self is MissingHost ==> text == Some("Broker requires a Host"),
            self is PathOnTcp ==> text == Some(
                "TCP connections only use host (and port) but no path",
            ),
            self is QueryGiven ==> text == Some("URL query is not used"),
            self is UsernameGiven ==> text == Some("Use --username instead"),
            self is PasswordGiven ==> text == Some("Use --password instead"),
            self is PortZero ==> text == Some("Port can not be 0"),
            self is UnsupportedScheme ==> text == Some("Broker URL scheme is not supported"),
            self is InvalidUrl ==> text is None,
    {
        match self {
            BrokerError::InvalidUrl(_) => None,
            BrokerError::MissingHost => Some("Broker requires a Host"),
            BrokerError::PathOnTcp => Some("TCP connections only use host (and port) but no path"),
            BrokerError::QueryGiven => Some("URL query is not used"),
            BrokerError::UsernameGiven => Some("Use --username instead"),
            BrokerError::PasswordGiven => Some("Use --password instead"),
            BrokerError::PortZero => Some("Port can not be 0"),
            BrokerError::UnsupportedScheme => Some("Broker URL scheme is not supported"),
        }
    }
}

/// Whether a scheme is one of the TCP schemes.
pub open spec fn is_tcp_scheme(scheme: Seq<char>) -> bool {
    scheme == "mqtt"@ || scheme == "mqtts"@
}

/// Whether a scheme is one of the WebSocket schemes.
pub open spec fn is_websocket_scheme(scheme: Seq<char>) -> bool {
    scheme == "ws"@ || scheme == "wss"@
}

/// The kinds of error a URL can have.
#[derive(Clone, Copy, Debug, PartialEq, Eq)]
pub enum UrlProblem {
    MissingHost,
    PathOnTcp,
    QueryGiven,
    UsernameGiven,
    PasswordGiven,
    PortZero,
    UnsupportedScheme,
}

/// The first rule a parsed URL breaks, in the order they are checked.
pub open spec fn url_problem(url: UrlView) -> Option<UrlProblem> {
    if url.host is None {
        Some(UrlProblem::MissingHost)
    } else if is_tcp_scheme(url.scheme) && !(url.path.len() == 0 || url.path == "/"@) {
        Some(UrlProblem::PathOnTcp)
    } else if !is_websocket_scheme(url.scheme) && url.query is Some {
        Some(UrlProblem::QueryGiven)
    } else if !is_websocket_scheme(url.scheme) && url.username.len() != 0 {
        Some(UrlProblem::UsernameGiven)
    } else if !is_websocket_scheme(url.scheme) && url.password is Some {
        Some(UrlProblem::PasswordGiven)
    } else if url.port == Some(0u16) {
        Some(UrlProblem::PortZero)
    } else if !is_tcp_scheme(url.scheme) && !is_websocket_scheme(url.scheme) {
        Some(UrlProblem::UnsupportedScheme)
    } else {
        None
    }
}

/// Whether an error is the one for a problem.
pub open spec fn error_is(error: BrokerError, problem: UrlProblem) -> bool {
    match problem {
        UrlProblem::MissingHost => error is MissingHost,
        UrlProblem::PathOnTcp => error is PathOnTcp,
        UrlProblem::QueryGiven => error is QueryGiven,
        UrlProblem::UsernameGiven => error is UsernameGiven,
        UrlProblem::PasswordGiven => error is PasswordGiven,
        UrlProblem::PortZero => error is PortZero,
        UrlProblem::UnsupportedScheme => error is UnsupportedScheme,
    }
}

/// The port of a URL, or the default when none is given.
pub open spec fn port_or(url: UrlView, default: u16) -> u16 {
    match url.port {
        Some(port) => port,
        None => default,
    }
}

/// The broker a URL without problems names.
pub open spec fn broker_matches(broker: Broker, url: UrlView) -> bool {
    match broker {
        Broker::Tcp { host, port } => url.scheme == "mqtt"@ && Some(host@) == url.host && port
            == port_or(url, 1883),
        Broker::Ssl { host, port } => url.scheme == "mqtts"@ && Some(host@) == url.host && port
            == port_or(url, 8883),
        Broker::WebSocket(parts) => url.scheme == "ws"@ && parts@ == url,
        Broker::WebSocketSsl(parts) => url.scheme == "wss"@ && parts@ == url,
    }
}

impl Broker {
    /// The broker a parsed URL names, or the first rule it breaks.
    pub fn from_url(url: UrlParts) -> (broker: Result<Broker, BrokerError>)
        ensures
            match broker {
                Ok(b) => url_problem(url@) is None && broker_matches(b, url@),
                Err(e) => url_problem(url@) matches Some(p) && error_is(e, p),
            },
    {
        let mqtt = str_eq(url.scheme.as_str(), "mqtt");
        let mqtts = str_eq(url.scheme.as_str(), "mqtts");
        let ws = str_eq(url.scheme.as_str(), "ws");
        let wss = str_eq(url.scheme.as_str(), "wss");
        let host = match &url.host {
            None => return Err(BrokerError::MissingHost),
            Some(host) => host.clone(),
        };
        if mqtt || mqtts {
            let path = url.path.as_str();
            if !(path.unicode_len() == 0 || str_eq(path, "/")) {
                return Err(BrokerError::PathOnTcp);
            }
        }
        if !(ws || wss) {
            if url.query.is_some() {
                return Err(BrokerError::QueryGiven);
            }
            if url.username.unicode_len() != 0 {
                return Err(BrokerError::UsernameGiven);
            }
            if url.password.is_some() {
                return Err(BrokerError::PasswordGiven);
            }
        }
        if matches!(url.port, Some(port) if port == 0) {
            return Err(BrokerError::PortZero);
        }
        if mqtt {
            let port = match url.port {
                Some(port) => port,
                None => 1883,
            };
            Ok(Broker::Tcp { host, port })
        } else if mqtts {
            let port = match url.port {
                Some(port) => port,
                None => 8883,
            };
            Ok(Broker::Ssl { host, port })
        } else if ws {
            Ok(Broker::WebSocket(url))
        } else if wss {
            Ok(Broker::WebSocketSsl(url))
        } else {
            Err(BrokerError::UnsupportedScheme)
        }
    }

    /// Parses a broker URL.
    pub fn from_str(input: &str) -> (broker: Result<Broker, BrokerError>)
        ensures
            match parsed_url(input@) {
                None => broker matches Err(BrokerError::InvalidUrl(_)),
                Some(url) => match broker {
                    Ok(b) => url_problem(url) is None && broker_matches(b, url),
                    Err(e) => url_problem(url) matches Some(p) && error_is(e, p),
                },
            },
    {
        match parse_url(input) {
            Ok(url) => Broker::from_url(url),
            Err(error) => Err(BrokerError::InvalidUrl(error)),
        }
    }

    /// How the broker is shown: `mqtt://host` or `mqtts://host`, with the
    /// port unless it is the default one, or the WebSocket URL itself.
    pub open spec fn spec_text(self) -> Seq<char> {
        match self {
            Broker::Tcp { host, port } => if port == 1883 {
                "mqtt://"@ + host@
            } else {
                "mqtt://"@ + host@ + ":"@ + spec_decimal(port as nat)
            },
            Broker::Ssl { host, port } => if port == 8883 {
                "mqtts://"@ + host@
            } else {
                "mqtts://"@ + host@ + ":"@ + spec_decimal(port as nat)
            },
            Broker::WebSocket(url) | Broker::WebSocketSsl(url) => url.text@,
        }
    }

    /// How `Debug` shows the broker.
    pub open spec fn spec_debug_text(self) -> Seq<char> {
        match self {
            Broker::Tcp { host, port } => "Tcp { host: "@ + debug_quoted(host@) + ", port: "@
                + spec_decimal(port as nat) + " }"@,
            Broker::Ssl { host, port } => "Ssl { host: "@ + debug_quoted(host@) + ", port: "@
                + spec_decimal(port as nat) + " }"@,
            Broker::WebSocket(url) => "WebSocket("@ + url.debug@ + ")"@,
            Broker::WebSocketSsl(url) => "WebSocketSsl("@ + url.debug@ + ")"@,
        }
    }

    /// How `Debug` shows the broker.
    pub fn debug_text(&self) -> (text: String)
        ensures
            text@ == self.spec_debug_text(),
    {
        let (name, host, port) = match self {
            Broker::Tcp { host, port } => ("Tcp { host: ", host, port),
            Broker::Ssl { host, port } => ("Ssl { host: ", host, port),
            Broker::WebSocket(url) => {
                let mut text = String::from_str("WebSocket(");
                text.append(url.debug.as_str());
                text.append(")");
                return text;
            },
            Broker::WebSocketSsl(url) => {
                let mut text = String::from_str("WebSocketSsl(");
                text.append(url.debug.as_str());
                text.append(")");
                return text;
            },
        };
        let mut text = String::from_str(name);
        text.append(quote(host.as_str()).as_str());
        text.append(", port: ");
        text.append(decimal(*port as usize).as_str());
        text.append(" }");
        text
    }

    /// How the broker is shown.
    pub fn to_string(&self) -> (text: String)
        ensures
            text@ == self.spec_text(),
    {
        match self {
            Broker::Tcp { host, port } => {
                let mut text = String::from_str("mqtt://");
                text.append(host.as_str());
                if *port != 1883 {
                    text.append(":");
                    text.append(decimal(*port as usize).as_str());
                }
                text
            },
            Broker::Ssl { host, port } => {
                let mut text = String::from_str("mqtts://");
                text.append(host.as_str());
                if *port != 8883 {
                    text.append(":");
                    text.append(decimal(*port as usize).as_str());
                }
                text
            },
            Broker::WebSocket(url) | Broker::WebSocketSsl(url) => url.text.clone(),
        }
    }
}

} // verus!
