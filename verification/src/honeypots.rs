//! Trap paths. Whoever asks for one of them is up to no good: no page links to them.

use crate::decision::{self, reason, DecisionReason, ReasonView};
use crate::signature;
use crate::text::{self, cat2, copy_list, ends_with, first_chars, same_text, starts_with};
use vstd::prelude::*;

verus! {

pub const W_HONEYPOT: u32 = 100;

/// The traps that are set at first.
pub const DEFAULT_TRAPS: [&'static str; 54] = [
    "/.env",
    "/.env.local",
    "/.env.production",
    "/.env.dev",
    "/.git/config",
    "/.git/HEAD",
    "/.git/index",
    "/.gitignore",
    "/.svn/wc.db",
    "/.hg/store",
    "/.aws/credentials",
    "/.ssh/id_rsa",
    "/.ssh/authorized_keys",
    "/.dockerignore",
    "/.docker/config.json",
    "/.npmrc",
    "/.bash_history",
    "/wp-config.php",
    "/wp-config.php.bak",
    "/wp-config.bak",
    "/wp-config.txt",
    "/wp-admin/setup-config.php",
    "/wp-admin/install.php",
    "/wp-content/debug.log",
    "/xmlrpc.php",
    "/phpinfo.php",
    "/info.php",
    "/test.php",
    "/phpmyadmin/",
    "/pma/",
    "/myadmin/",
    "/server-status",
    "/server-info",
    "/console",
    "/manager/html",
    "/manager/status",
    "/admin.php",
    "/setup.php",
    "/.well-known/security.txt.bak",
    "/cgi-bin/luci",
    "/cgi-bin/php-cgi",
    "/HNAP1/",
    "/Autodiscover/Autodiscover.xml",
    "/owa/auth/logon.aspx",
    "/ews/exchange.asmx",
    "/boaform/admin/formLogin",
    "/cgi-bin/.%2e/",
    "/actuator/env",
    "/actuator/heapdump",
    "/actuator/prometheus",
    "/api/v1/cluster/info",
    "/druid/indexer/v1/sampler",
    "/struts2-rest-showcase/orders/3",
    "/_ignition/execute-solution",
];

/// Whether a path falls into a trap. A trap that ends with a slash stands for everything below it.
pub open spec fn caught_by(trap: Seq<char>, path: Seq<char>) -> bool {
    if text::has_suffix(trap, "/"@) {
        text::has_prefix(path, trap)
    } else {
        path == trap || text::has_prefix(path, trap + "?"@)
    }
}

pub open spec fn trapped(traps: Seq<Seq<char>>, path: Seq<char>) -> bool {
    exists|i: int| 0 <= i < traps.len() && caught_by(#[trigger] traps[i], path)
}

/// The reason that a path gives.
pub open spec fn trap_reason(traps: Seq<Seq<char>>, path: Seq<char>) -> Option<ReasonView> {
    if trapped(traps, path) {
        Some(
            decision::reason_of(
                "HONEYPOT"@,
                "honeypot"@,
                W_HONEYPOT,
                "trap path "@ + text::head(path, 64),
            ),
        )
    } else {
        None
    }
}

pub struct Honeypots {
    paths: Vec<String>,
}

impl View for Honeypots {
    type V = Seq<Seq<char>>;

    closed spec fn view(&self) -> Seq<Seq<char>> {
        self.paths.deep_view()
    }
}

impl Default for Honeypots {
    fn default() -> (r: Honeypots)
        ensures
            r@ == text::texts(DEFAULT_TRAPS@),
    {
        let traps = DEFAULT_TRAPS;
        let mut paths: Vec<String> = Vec::new();
        for i in 0..traps.len()
            invariant
                paths@.len() == i,
                traps@ == DEFAULT_TRAPS@,
                forall|j: int| 0 <= j < i ==> (#[trigger] paths@[j])@ == traps@[j]@,
        {
            paths.push(traps[i].to_string());
        }
        assert(paths.deep_view() =~= text::texts(DEFAULT_TRAPS@));
        Honeypots::new(paths)
    }
}

impl Honeypots {
    pub fn new(paths: Vec<String>) -> (r: Honeypots)
        ensures
            r@ == paths.deep_view(),
    {
        Honeypots { paths }
    }

    pub fn replace(&mut self, paths: Vec<String>)
        ensures
            final(self)@ == paths.deep_view(),
    {
        self.paths = paths;
    }

    pub fn snapshot(&self) -> (r: Vec<String>)
        ensures
            r.deep_view() == self@,
    {
        copy_list(&self.paths)
    }

    pub fn is_trap(&self, path: &str) -> (r: bool)
        ensures
            r == trapped(self@, path@),
    {
        let ghost all = self@;
        let mut i: usize = 0;
        while i < self.paths.len()
            invariant
                i <= self.paths@.len(),
                all == self@,
                forall|j: int| 0 <= j < i ==> !caught_by(#[trigger] all[j], path@),
            decreases self.paths@.len() - i,
        {
            let p = self.paths[i].as_str();
            assert(all[i as int] == p@);
            let caught = if ends_with(p, "/") {
                starts_with(path, p)
            } else {
                same_text(path, p) || starts_with(path, cat2(p, "?").as_str())
            };
            if caught {
                return true;
            }
            i += 1;
        }
        false
    }

    pub fn check(&self, path: &str) -> (r: Option<DecisionReason>)
        ensures
            signature::reason_view(r) == trap_reason(self@, path@),
    {
        if self.is_trap(path) {
            Some(
                reason(
                    "HONEYPOT",
                    "honeypot",
                    W_HONEYPOT,
                    cat2("trap path ", first_chars(path, 64).as_str()),
                ),
            )
        } else {
            None
        }
    }
}

// ---------------------------------------------------------------------------
// Laws
// ---------------------------------------------------------------------------

/// A trap that ends with a slash catches itself and everything below it; another one catches itself
/// alone, with or without a query.
pub proof fn lemma_catch_exactly(trap: Seq<char>, rest: Seq<char>)
    requires
        trap.len() > 0,
    ensures
        trap.last() == '/' ==> caught_by(trap, trap + rest),
        trap.last() != '/' ==> (caught_by(trap, trap + rest) <==> rest.len() == 0 || rest[0] == '?'),
{
    reveal_strlit("/");
    reveal_strlit("?");
    let path = trap + rest;
    assert("/"@ =~= seq!['/']);
    assert("?"@ =~= seq!['?']);
    assert(trap.skip(trap.len() - 1) =~= seq![trap.last()]);
    assert(seq![trap.last()][0] == trap.last() && seq!['/'][0] == '/');
    assert(path.take(trap.len() as int) =~= trap);
    if rest.len() > 0 {
        assert(path.take(trap.len() as int + 1) =~= trap.push(rest[0]));
        assert(trap + "?"@ =~= trap.push('?'));
        assert(trap.push(rest[0])[trap.len() as int] == rest[0]);
        assert(trap.push('?')[trap.len() as int] == '?');
        assert(path.len() != trap.len());
    } else {
        assert(path =~= trap);
    }
}

/// Only paths that begin with a trap are caught by it.
pub proof fn lemma_catch_begins(trap: Seq<char>, path: Seq<char>)
    requires
        caught_by(trap, path),
    ensures
        trap.len() <= path.len(),
        path.take(trap.len() as int) == trap,
{
    let q = trap + "?"@;
    if path == trap {
        assert(path.take(trap.len() as int) =~= trap);
    } else if text::has_prefix(path, q) {
        assert(path.take(q.len() as int).take(trap.len() as int) =~= path.take(trap.len() as int));
        assert(q.take(trap.len() as int) =~= trap);
    }
}

/// More traps catch no fewer paths: a path is caught by a list exactly when it is caught by one of
/// its parts.
pub proof fn lemma_more_traps(a: Seq<Seq<char>>, b: Seq<Seq<char>>, path: Seq<char>)
    ensures
        trapped(a + b, path) <==> trapped(a, path) || trapped(b, path),
        !trapped(seq![], path),
        trap_reason(a, path) is Some <==> trapped(a, path),
        trap_reason(a, path) matches Some(r) ==> r.rule_id == "HONEYPOT"@ && r.score == 100,
{
    let c = a + b;
    if trapped(a, path) {
        let i = choose|i: int| 0 <= i < a.len() && caught_by(#[trigger] a[i], path);
        assert(caught_by(c[i], path));
    }
    if trapped(b, path) {
        let i = choose|i: int| 0 <= i < b.len() && caught_by(#[trigger] b[i], path);
        assert(caught_by(c[a.len() + i], path));
    }
    if trapped(c, path) {
        let i = choose|i: int| 0 <= i < c.len() && caught_by(#[trigger] c[i], path);
        if i < a.len() {
            assert(caught_by(a[i], path));
        } else {
            assert(caught_by(b[i - a.len()], path));
        }
    }
}

} // verus!
