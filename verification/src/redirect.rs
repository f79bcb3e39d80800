//! The answer of a clear-text listener whose traffic is forced to TLS.

use crate::http::{Reply, ReplyView};
use crate::num::{self, dec};
use crate::request;
use crate::text::{self, cat3, cat5, split};
use vstd::prelude::*;

verus! {

/// Sends every request on to https on one port.
#[derive(Debug)]
pub struct HttpsRedirect {
    port: u16,
}

/// Where a request is sent: the same place on https, without the port that its host named.
pub open spec fn location_text(port: u16, host: Option<Seq<char>>, target: Option<Seq<char>>) -> Seq<char> {
    let name = match host {
        Some(h) => text::pieces(h, ':')[0],
        None => ""@,
    };
    let path = match target {
        Some(t) => t,
        None => "/"@,
    };
    if port == 443 {
        "https://"@ + name + path
    } else {
        "https://"@ + name + ":"@ + num::dec_text(port as nat) + path
    }
}

/// The redirecting answer.
pub open spec fn redirect_to(location: Seq<char>) -> ReplyView {
    ReplyView::bare(301, seq![]).with("location"@, location).with("content-length"@, "0"@).with("x-waf"@, "2t1"@)
}

pub open spec fn opt_view(s: Option<&str>) -> Option<Seq<char>> {
    match s {
        Some(t) => Some(t@),
        None => None,
    }
}

impl HttpsRedirect {
    pub closed spec fn spec_port(&self) -> u16 {
        self.port
    }

    pub fn new(port: u16) -> (r: HttpsRedirect)
        ensures
            r.spec_port() == port,
    {
        HttpsRedirect { port }
    }

    /// Where a request with this host and this target is sent.
    pub fn location(&self, host: Option<&str>, target: Option<&str>) -> (r: String)
        ensures
            r@ == location_text(self.spec_port(), opt_view(host), opt_view(target)),
    {
        let path = match target {
            Some(t) => t,
            None => "/",
        };
        let name = match host {
            Some(h) => {
                let parts = split(h, ':');
                assert(parts.deep_view()[0] == parts@[0]@);
                parts[0].clone()
            },
            None => "".to_string(),
        };
        if self.port == 443 {
            cat3("https://", name.as_str(), path)
        } else {
            cat5("https://", name.as_str(), ":", dec(self.port as u64).as_str(), path)
        }
    }

    /// The answer to a request with this host and this target.
    pub fn reply(&self, host: Option<&str>, target: Option<&str>) -> (r: Reply)
        ensures
            r@ == redirect_to(location_text(self.spec_port(), opt_view(host), opt_view(target))),
    {
        let location = self.location(host, target);
        let out = Reply::bare(301, Vec::new()).with("location", location.as_str()).with("content-length", "0").with(
            "x-waf",
            "2t1",
        );
        assert(out@ =~= redirect_to(location@));
        out
    }
}

// ---------------------------------------------------------------------------
// Laws
// ---------------------------------------------------------------------------

/// A request is sent to the same name and the same target on https: the port that its host named is
/// dropped, and the port of the listener is named unless it is the usual one.
pub proof fn lemma_same_place(port: u16, name: Seq<char>, tail: Seq<char>, target: Seq<char>)
    requires
        !name.contains(':'),
    ensures
        location_text(port, Some(name), Some(target)) == if port == 443 {
            "https://"@ + name + target
        } else {
            "https://"@ + name + ":"@ + num::dec_text(port as nat) + target
        },
        location_text(port, Some(name + seq![':'] + tail), Some(target)) == location_text(port, Some(name), Some(target)),
        location_text(port, Some(name), None) == location_text(port, Some(name), Some("/"@)),
{
    let h = name + seq![':'] + tail;
    assert forall|j: int| 0 <= j < name.len() implies name[j] != ':' by {}
    assert forall|j: int| 0 <= j < name.len() implies h[j] != ':' by {
        assert(h[j] == name[j]);
    }
    text::lemma_first_at(name, ':', name.len() as int);
    text::lemma_first_at(h, ':', name.len() as int);
    assert(h.take(name.len() as int) =~= name);
}

/// The answer is a permanent redirect without a body.
pub proof fn lemma_redirect_reply(location: Seq<char>)
    ensures
        redirect_to(location).status == 301,
        redirect_to(location).body.len() == 0,
        request::lookup(redirect_to(location).headers, "location"@) == Some(location),
        request::lookup(redirect_to(location).headers, "content-length"@) == Some("0"@),
{
    reveal_strlit("location");
    reveal_strlit("content-length");
    reveal_strlit("x-waf");
    assert("location"@.len() == 8 && "content-length"@.len() == 14 && "x-waf"@.len() == 5);
    let a = ReplyView::bare(301, seq![]);
    request::lemma_put(a.headers, "location"@, location);
    let b = a.with("location"@, location);
    request::lemma_put(b.headers, "content-length"@, "0"@);
    let c = b.with("content-length"@, "0"@);
    request::lemma_put(c.headers, "x-waf"@, "2t1"@);
}

} // verus!
