//! What a login flow needs the person to see.
//!
//! A provider that printed a device code would scribble over the alternate screen. So the flow
//! sends a [`Notice`] instead, and the interface puts it where it scrolls and can be re-read.

use vstd::prelude::*;
use crate::text;

verus! {

/// Something a login flow needs the person to see.
#[derive(Debug, PartialEq, Eq)]
pub enum Notice {
    /// The host could not open a browser, or chose not to; the URL is shown so it can be copied.
    OpenBrowser(String),
    DeviceCode { code: String, verification_uri: String },
    Message(String),
    /// A server's token was just stored.
    SignedIn(String),
    /// How one server's login is going.
    McpProgress { name: String, message: String },
}

/// What a [`Notice`] says.
pub enum NoticeView {
    OpenBrowser(Seq<char>),
    DeviceCode { code: Seq<char>, verification_uri: Seq<char> },
    Message(Seq<char>),
    SignedIn(Seq<char>),
    McpProgress { name: Seq<char>, message: Seq<char> },
}

impl View for Notice {
    type V = NoticeView;

    open spec fn view(&self) -> NoticeView {
        match self {
            Notice::OpenBrowser(url) => NoticeView::OpenBrowser(url@),
            Notice::DeviceCode { code, verification_uri } => NoticeView::DeviceCode {
                code: code@,
                verification_uri: verification_uri@,
            },
            Notice::Message(message) => NoticeView::Message(message@),
            Notice::SignedIn(name) => NoticeView::SignedIn(name@),
            Notice::McpProgress { name, message } => NoticeView::McpProgress {
                name: name@,
                message: message@,
            },
        }
    }
}

/// How a notice reads.
pub open spec fn notice_text(notice: NoticeView) -> Seq<char> {
    match notice {
        NoticeView::OpenBrowser(url) => "sign in at "@ + url,
        NoticeView::DeviceCode { code, verification_uri } => "enter code "@ + code + " at "@
            + verification_uri,
        NoticeView::Message(message) => message,
        NoticeView::SignedIn(name) => "signed in to `"@ + name + "`"@,
        NoticeView::McpProgress { name, message } => "`"@ + name + "`: "@ + message,
    }
}

impl Notice {
    /// How the notice reads.
    pub fn message(&self) -> (r: String)
        ensures
            r@ == notice_text(self@),
    {
        match self {
            Notice::OpenBrowser(url) => text::concat("sign in at ", url.as_str()),
            Notice::DeviceCode { code, verification_uri } => {
                let mut r = text::concat3("enter code ", code.as_str(), " at ");
                r.append(verification_uri.as_str());
                r
            },
            Notice::Message(message) => message.clone(),
            Notice::SignedIn(name) => text::concat3("signed in to `", name.as_str(), "`"),
            Notice::McpProgress { name, message } => {
                let mut r = text::concat3("`", name.as_str(), "`: ");
                r.append(message.as_str());
                r
            },
        }
    }

    /// What one server's login says when it opens a browser. The URL is reported even when the
    /// browser opens: a spawn that fails says nothing.
    pub fn mcp_browser(name: &str, url: &str) -> (r: Notice)
        ensures
            r@ == (NoticeView::McpProgress { name: name@, message: "sign in at "@ + url@ }),
    {
        Notice::McpProgress { name: text::copy(name), message: text::concat("sign in at ", url) }
    }

    /// What one server's login says when it shows a device code.
    pub fn mcp_code(name: &str, code: &str, verification_uri: &str) -> (r: Notice)
        ensures
            r@ == (NoticeView::McpProgress {
                name: name@,
                message: "enter code "@ + code@ + " at "@ + verification_uri@,
            }),
    {
        let mut message = text::concat3("enter code ", code, " at ");
        message.append(verification_uri);
        Notice::McpProgress { name: text::copy(name), message }
    }
}

} // verus!
