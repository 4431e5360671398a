//! HTTP host discovery: a HEAD request over HTTP and one over HTTPS race,
//! and any answer with a status from 100 to 599 shows that the host is up.

use vstd::prelude::*;

use crate::input::{has_prefix, http_prefix, https_prefix, spec_strip_scheme};
use crate::ipv4::{law_dotted_text_parses_back, spec_dotted, spec_parse_ipv4, Ipv4Addr};

verus! {

/// 1xx through 5xx all mean the server answered.
pub open spec fn spec_is_alive_status(code: u16) -> bool {
    100 <= code <= 599
}

/// 1xx through 5xx all mean the server answered; only a connection-level
/// failure counts as dead.
pub fn is_alive_status(code: u16) -> (r: bool)
    ensures
        r == spec_is_alive_status(code),
{
    // informational, success, redirection, client error, server error
    (100 <= code && code <= 199) || (200 <= code && code <= 299) || (300 <= code && code <= 399)
        || (400 <= code && code <= 499) || (500 <= code && code <= 599)
}

/// The URL scheme of one of the two racing requests.
#[derive(Clone, Copy, Debug, PartialEq, Eq, Structural)]
pub enum Scheme {
    Http,
    Https,
}

/// What the race says after one request finished.
#[derive(Clone, Copy, Debug, PartialEq, Eq, Structural)]
pub enum RaceStep {
    /// The request that finished got a response: the host is up.
    Alive,
    /// Both requests finished and neither reached the host.
    Dead,
    /// The other request is still running.
    Pending,
}

/// Which of the two requests, HTTP and HTTPS, have finished.
pub struct HttpRace {
    http_done: bool,
    https_done: bool,
}

impl View for HttpRace {
    type V = (bool, bool);

    closed spec fn view(&self) -> (bool, bool) {
        (self.http_done, self.https_done)
    }
}

/// The request with `scheme` has finished according to `done`.
pub open spec fn is_done(done: (bool, bool), scheme: Scheme) -> bool {
    match scheme {
        Scheme::Http => done.0,
        Scheme::Https => done.1,
    }
}

/// One request finished with `result` (`None` when it never reached the
/// host, else `Some` of whether its status is one of 1xx through 5xx): which
/// requests are done afterwards, and what the race says. Any response shows
/// that the request reached the host, so the host is up; it counts as dead
/// only when neither request reached it at all.
pub open spec fn race_step(done: (bool, bool), scheme: Scheme, result: Option<bool>) -> (
    (bool, bool),
    RaceStep,
) {
    let after = match scheme {
        Scheme::Http => (true, done.1),
        Scheme::Https => (done.0, true),
    };
    let step = if result is Some {
        RaceStep::Alive
    } else if after.0 && after.1 {
        RaceStep::Dead
    } else {
        RaceStep::Pending
    };
    (after, step)
}

impl HttpRace {
    /// A race in which neither request has finished.
    pub fn new() -> (r: HttpRace)
        ensures
            r@ == (false, false),
    {
        HttpRace { http_done: false, https_done: false }
    }

    /// Whether the request with `scheme` has finished.
    pub fn done(&self, scheme: Scheme) -> (r: bool)
        ensures
            r == is_done(self@, scheme),
    {
        match scheme {
            Scheme::Http => self.http_done,
            Scheme::Https => self.https_done,
        }
    }

    /// The request with `scheme` finished with `result`; see [`race_step`].
    pub fn on_result(&mut self, scheme: Scheme, result: Option<bool>) -> (r: RaceStep)
        requires
            !is_done(old(self)@, scheme),
        ensures
            (final(self)@, r) == race_step(old(self)@, scheme, result),
    {
        match scheme {
            Scheme::Http => self.http_done = true,
            Scheme::Https => self.https_done = true,
        }
        if result.is_some() {
            RaceStep::Alive
        } else if self.http_done && self.https_done {
            RaceStep::Dead
        } else {
            RaceStep::Pending
        }
    }
}

/// Recording a result marks exactly that request as finished: afterwards it
/// is done, and whether the other one is done is unchanged. At the start of
/// a race neither request is done.
pub proof fn law_result_finishes_its_request(done: (bool, bool), s: Scheme, result: Option<bool>)
    ensures
        is_done(race_step(done, s, result).0, s),
        is_done(race_step(done, s, result).0, other(s)) == is_done(done, other(s)),
        !is_done((false, false), Scheme::Http),
        !is_done((false, false), Scheme::Https),
        is_done(done, Scheme::Http) == done.0,
        is_done(done, Scheme::Https) == done.1,
{
}

/// The scheme that is not `s`.
pub open spec fn other(s: Scheme) -> Scheme {
    match s {
        Scheme::Http => Scheme::Https,
        Scheme::Https => Scheme::Http,
    }
}

/// Whichever request finishes first, the race reports the host alive as
/// soon as one request gets a response, and dead only when neither request
/// reached the host at all.
pub proof fn law_http_race(first: Scheme, first_result: Option<bool>, second_result: Option<bool>)
    ensures
        ({
            let (mid, step1) = race_step((false, false), first, first_result);
            let (end, step2) = race_step(mid, other(first), second_result);
            &&& step1 == RaceStep::Alive <==> first_result is Some
            &&& step1 != RaceStep::Dead
            &&& step1 == RaceStep::Pending ==> !is_done(mid, other(first))
            &&& step1 == RaceStep::Pending ==> (step2 == RaceStep::Alive <==> second_result is Some)
            &&& step1 == RaceStep::Pending ==> (step2 == RaceStep::Dead <==> second_result is None)
            &&& (step1 == RaceStep::Alive || step2 == RaceStep::Alive) <==> (first_result is Some
                || second_result is Some)
        }),
{
}

/// The URL `http://<ip>`.
pub open spec fn spec_http_url(ip: Ipv4Addr) -> Seq<char> {
    http_prefix() + spec_dotted(ip)
}

/// The URL `https://<ip>`.
pub open spec fn spec_https_url(ip: Ipv4Addr) -> Seq<char> {
    https_prefix() + spec_dotted(ip)
}

/// The two URLs that the HTTP probe of `ip` requests: `http://<ip>` and
/// `https://<ip>`.
pub fn probe_urls(ip: Ipv4Addr) -> (r: (String, String))
    ensures
        r.0@ == spec_http_url(ip),
        r.1@ == spec_https_url(ip),
{
    proof {
        reveal_strlit("http://");
        reveal_strlit("https://");
    }
    let dotted = ip.to_dotted();
    let mut http = String::from_str("http://");
    http.append(dotted.as_str());
    let mut https = String::from_str("https://");
    https.append(dotted.as_str());
    assert(http@ =~= spec_http_url(ip));
    assert(https@ =~= spec_https_url(ip));
    (http, https)
}

/// The probe URLs of an address lead back to it: without their scheme they
/// read as that address.
pub proof fn law_probe_urls_name_the_target(ip: Ipv4Addr)
    ensures
        spec_parse_ipv4(spec_strip_scheme(spec_http_url(ip))) == Some(ip),
        spec_parse_ipv4(spec_strip_scheme(spec_https_url(ip))) == Some(ip),
{
    let d = spec_dotted(ip);
    let h = spec_http_url(ip);
    let hs = spec_https_url(ip);
    assert(h.take(7) =~= http_prefix());
    assert(h.skip(7) =~= d);
    if has_prefix(h, https_prefix()) {
        assert(h.take(8)[4] == https_prefix()[4]);
    }
    assert(hs.take(8) =~= https_prefix());
    assert(hs.skip(8) =~= d);
    law_dotted_text_parses_back(ip);
}

} // verus!
