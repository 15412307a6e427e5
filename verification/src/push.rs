use vstd::prelude::*;

use crate::path_info::{signature_matches, PathInfo};

verus! {

/// Why a path needs no upload.
#[derive(PartialEq, Eq, Structural, Clone, Copy, Debug)]
pub enum SkipReason {
    /// A signature on the path already names a trusted upstream.
    Signature,
    /// An upstream cache answered an existence probe for the path.
    Upstream,
    /// The destination store already holds the path's metadata.
    AlreadyExists,
}

/// The admission decision for one path.
#[derive(PartialEq, Eq, Structural, Clone, Copy, Debug)]
pub enum Decision {
    Skip(SkipReason),
    Proceed,
}

/// The ordered decision list of the admission filter: the local signature
/// check wins over both probes, the upstream probe wins over the
/// destination probe, and a path no check claims proceeds to upload.
pub open spec fn decision_spec(
    signature_match: bool,
    upstream_hit: bool,
    already_exists: bool,
) -> Decision {
    if signature_match {
        Decision::Skip(SkipReason::Signature)
    } else if upstream_hit {
        Decision::Skip(SkipReason::Upstream)
    } else if already_exists {
        Decision::Skip(SkipReason::AlreadyExists)
    } else {
        Decision::Proceed
    }
}

/// Whether some signature of `path` names a trusted upstream host.
pub open spec fn signature_match_spec(path: PathInfo, hosts: Seq<String>) -> bool {
    exists|i: int|
        0 <= i < path.signatures@.len() && signature_matches((#[trigger] path.signatures@[i])@, hosts)
}

/// The admission checks form a total order: whenever the signature check
/// applies it decides alone, whatever the probes would have said; the
/// upstream probe likewise wins over the destination probe.
pub proof fn lemma_admission_total_order(upstream_hit: bool, already_exists: bool)
    ensures
        decision_spec(true, upstream_hit, already_exists) == Decision::Skip(SkipReason::Signature),
        decision_spec(false, true, already_exists) == Decision::Skip(SkipReason::Upstream),
        decision_spec(false, false, true) == Decision::Skip(SkipReason::AlreadyExists),
        decision_spec(false, false, false) == Decision::Proceed,
{
}

/// Decide admission for one path from the local signature check and the
/// two probe outcomes. The caller runs the probes only when the cheaper
/// checks did not already decide; a probe outcome passed as `false` is
/// then exactly a probe that was never needed.
pub fn admission_decision(
    path: &PathInfo,
    upstream_hosts: &Vec<String>,
    upstream_hit: bool,
    already_exists: bool,
) -> (d: Decision)
    ensures
        d == decision_spec(
            signature_match_spec(*path, upstream_hosts@),
            upstream_hit,
            already_exists,
        ),
{
    if path.check_upstream_signature(upstream_hosts) {
        Decision::Skip(SkipReason::Signature)
    } else if upstream_hit {
        Decision::Skip(SkipReason::Upstream)
    } else if already_exists {
        Decision::Skip(SkipReason::AlreadyExists)
    } else {
        Decision::Proceed
    }
}

/// The four outcome totals of one push run.
#[derive(PartialEq, Eq, Structural, Clone, Copy, Debug)]
pub struct Counters {
    /// Paths skipped because of a signature match.
    pub signature_hits: u64,
    /// Paths skipped because an upstream cache has them.
    pub upstream_hits: u64,
    /// Paths skipped because the destination already has them.
    pub already_exists: u64,
    /// Paths uploaded.
    pub uploaded: u64,
}

impl Counters {
    pub fn new() -> (r: Counters)
        ensures
            r == (Counters { signature_hits: 0u64, upstream_hits: 0u64, already_exists: 0u64, uploaded: 0u64 }),
    {
        Counters { signature_hits: 0, upstream_hits: 0, already_exists: 0, uploaded: 0 }
    }

    pub open spec fn total(self) -> int {
        self.signature_hits + self.upstream_hits + self.already_exists + self.uploaded
    }

    /// Record one decision: exactly the counter of its skip reason moves,
    /// by one; a `Proceed` changes nothing, since an upload is counted
    /// only once it has run.
    pub fn record(&mut self, d: Decision)
        requires
            old(self).total() < u64::MAX,
        ensures
            final(self).signature_hits == old(self).signature_hits
                + if d == Decision::Skip(SkipReason::Signature) { 1int } else { 0int },
            final(self).upstream_hits == old(self).upstream_hits
                + if d == Decision::Skip(SkipReason::Upstream) { 1int } else { 0int },
            final(self).already_exists == old(self).already_exists
                + if d == Decision::Skip(SkipReason::AlreadyExists) { 1int } else { 0int },
            final(self).uploaded == old(self).uploaded,
    {
        match d {
            Decision::Skip(SkipReason::Signature) => {
                self.signature_hits = self.signature_hits + 1;
            },
            Decision::Skip(SkipReason::Upstream) => {
                self.upstream_hits = self.upstream_hits + 1;
            },
            Decision::Skip(SkipReason::AlreadyExists) => {
                self.already_exists = self.already_exists + 1;
            },
            Decision::Proceed => {},
        }
    }

    /// Record one finished upload.
    pub fn record_uploaded(&mut self)
        requires
            old(self).total() < u64::MAX,
        ensures
            final(self).uploaded == old(self).uploaded + 1,
            final(self).signature_hits == old(self).signature_hits,
            final(self).upstream_hits == old(self).upstream_hits,
            final(self).already_exists == old(self).already_exists,
    {
        self.uploaded = self.uploaded + 1;
    }
}

/// The stages of one push run, passed strictly left to right.
#[derive(PartialEq, Eq, Structural, Clone, Copy, Debug)]
pub enum Phase {
    Idle,
    ResolvingClosure,
    /// Filtering and uploading run as one pipelined stage: admitted paths
    /// flow into upload workers until the filter has emitted its last
    /// path and every worker is drained.
    Pipelining,
    Reporting,
    Done,
}

#[derive(Debug)]
pub enum PushError {
    /// An upstream cache URL does not parse as a URL.
    InvalidUpstream,
}

/// The views of a list of strings.
pub open spec fn string_views(v: Seq<String>) -> Seq<Seq<char>> {
    v.map_values(|s: String| s@)
}

/// The default public cache, included as an upstream unless switched off.
pub open spec fn default_upstream() -> Seq<char> {
    "https://cache.nixos.org"@
}

/// The upstream caches one run consults: the configured ones, plus the
/// default public cache unless `no_default_upstream` is set.
pub open spec fn effective_upstreams(args: PushArgs) -> Seq<Seq<char>> {
    if args.no_default_upstream {
        string_views(args.upstreams@)
    } else {
        string_views(args.upstreams@) + seq![default_upstream()]
    }
}

/// Whether the text parses as a URL. Named only: relies on url::Url::parse
/// being a pure function of the text.
pub uninterp spec fn url_parses(s: Seq<char>) -> bool;

/// The domain of the URL the text parses to, when it parses and its host
/// is a domain (an IP-address host has none). Named only: relies on
/// url::Url::domain being a pure function of the parsed URL.
pub uninterp spec fn host_of(s: Seq<char>) -> Option<Seq<char>>;

/// Relies on url::Url::parse and url::Url::domain: whether a text parses,
/// and the domain of what it parses to, depend on the text alone. A
/// parseable URL without a domain (an IP endpoint) is `Ok(None)`.
#[verifier::external_body]
fn url_host(s: &str) -> (r: Result<Option<String>, PushError>)
    ensures
        r is Ok <==> url_parses(s@),
        r matches Ok(h) ==> {
            &&& h is Some <==> host_of(s@) is Some
            &&& h matches Some(x) ==> host_of(s@) == Some(x@)
        },
{
    match url::Url::parse(s) {
        Ok(u) => Ok(u.domain().map(|d| d.to_owned())),
        Err(_) => Err(PushError::InvalidUpstream),
    }
}

/// The trusted host names a list of upstream URLs yields: the domain of
/// each upstream that has one, in order; upstreams without a domain
/// contribute none.
pub open spec fn hosts_of(ss: Seq<Seq<char>>) -> Seq<Seq<char>>
    decreases ss.len(),
{
    if ss.len() == 0 {
        Seq::empty()
    } else {
        match host_of(ss[0]) {
            Some(h) => seq![h] + hosts_of(ss.skip(1)),
            None => hosts_of(ss.skip(1)),
        }
    }
}

/// Extending the upstream list by one extends its host list by that
/// upstream's domain, if it has one.
proof fn lemma_hosts_of_push(ss: Seq<Seq<char>>, x: Seq<char>)
    ensures
        hosts_of(ss.push(x)) == hosts_of(ss) + (match host_of(x) {
            Some(h) => seq![h],
            None => Seq::<Seq<char>>::empty(),
        }),
    decreases ss.len(),
{
    let ext = ss.push(x);
    if ss.len() == 0 {
        assert(ext[0] == x);
        assert(ext.skip(1) =~= Seq::<Seq<char>>::empty());
        assert(hosts_of(ext.skip(1)) == Seq::<Seq<char>>::empty());
        assert(hosts_of(ss) == Seq::<Seq<char>>::empty());
        match host_of(x) {
            Some(h) => {
                assert(hosts_of(ext) == seq![h] + hosts_of(ext.skip(1)));
                assert(hosts_of(ext) =~= hosts_of(ss) + seq![h]);
            },
            None => {
                assert(hosts_of(ext) == hosts_of(ext.skip(1)));
                assert(hosts_of(ext) =~= hosts_of(ss) + Seq::<Seq<char>>::empty());
            },
        }
    } else {
        assert(ext[0] == ss[0]);
        assert(ext.skip(1) =~= ss.skip(1).push(x));
        lemma_hosts_of_push(ss.skip(1), x);
        let ghost tail_ext = (match host_of(x) {
            Some(hx) => seq![hx],
            None => Seq::<Seq<char>>::empty(),
        });
        assert(hosts_of(ext.skip(1)) == hosts_of(ss.skip(1)) + tail_ext);
        match host_of(ss[0]) {
            Some(h) => {
                assert(hosts_of(ext) == seq![h] + hosts_of(ext.skip(1)));
                assert(hosts_of(ss) == seq![h] + hosts_of(ss.skip(1)));
                assert(hosts_of(ext) =~= hosts_of(ss) + tail_ext);
            },
            None => {
                assert(hosts_of(ext) == hosts_of(ext.skip(1)));
                assert(hosts_of(ss) == hosts_of(ss.skip(1)));
                assert(hosts_of(ext) =~= hosts_of(ss) + tail_ext);
            },
        }
    }
}

use crate::PushArgs;

/// One push run: the upstream caches and their trusted host names, the
/// outcome counters, the paths that failed, and the current stage.
pub struct Push {
    /// The upstream cache URLs, as configured plus the default.
    pub upstream_caches: Vec<String>,
    /// The host names of the upstream caches, in the same order.
    pub upstream_hosts: Vec<String>,
    pub counters: Counters,
    /// Absolute paths whose packaging or upload failed; such a failure is
    /// recorded and does not stop the run.
    pub failures: Vec<String>,
    pub phase: Phase,
}

impl Push {
    pub open spec fn wf(self) -> bool {
        string_views(self.upstream_hosts@) == hosts_of(string_views(self.upstream_caches@))
    }

    /// Assemble one run from the arguments. Fails exactly when some
    /// effective upstream does not parse as a URL — a fatal error, before
    /// anything else runs. An upstream that parses but has no domain (an
    /// IP endpoint) is kept for probing; it just contributes no trusted
    /// host to the signature check.
    pub fn new(cli: &PushArgs) -> (r: Result<Push, PushError>)
        ensures
            r is Ok <==> (forall|i: int|
                0 <= i < effective_upstreams(*cli).len() ==> url_parses(
                    #[trigger] effective_upstreams(*cli)[i],
                )),
            r matches Ok(p) ==> {
                &&& p.wf()
                &&& string_views(p.upstream_caches@) == effective_upstreams(*cli)
                &&& string_views(p.upstream_hosts@) == hosts_of(effective_upstreams(*cli))
                &&& p.counters.total() == 0
                &&& p.failures@ == Seq::<String>::empty()
                &&& p.phase == Phase::Idle
            },
    {
        let ghost eff = effective_upstreams(*cli);
        let mut upstream_caches: Vec<String> = Vec::new();
        let mut i: usize = 0;
        while i < cli.upstreams.len()
            invariant
                i <= cli.upstreams@.len(),
                upstream_caches@.len() == i,
                forall|j: int|
                    0 <= j < i ==> (#[trigger] upstream_caches@[j])@ == (cli.upstreams@[j])@,
            decreases cli.upstreams@.len() - i,
        {
            upstream_caches.push(cli.upstreams[i].clone());
            i = i + 1;
        }
        if !cli.no_default_upstream {
            upstream_caches.push("https://cache.nixos.org".to_owned());
        }
        proof {
            assert(upstream_caches@.len() == eff.len());
            assert forall|j: int| 0 <= j < eff.len() implies #[trigger] eff[j] == (
            upstream_caches@[j])@ by {
                if j < cli.upstreams@.len() {
                    assert(eff[j] == string_views(cli.upstreams@)[j]);
                }
            }
            assert(string_views(upstream_caches@) =~= eff);
        }
        let mut upstream_hosts: Vec<String> = Vec::new();
        let mut i: usize = 0;
        proof {
            assert(eff.take(0) =~= Seq::<Seq<char>>::empty());
            assert(string_views(upstream_hosts@) =~= hosts_of(eff.take(0)));
        }
        while i < upstream_caches.len()
            invariant
                eff == effective_upstreams(*cli),
                i <= upstream_caches@.len(),
                upstream_caches@.len() == eff.len(),
                forall|j: int|
                    0 <= j < eff.len() ==> #[trigger] eff[j] == (upstream_caches@[j])@,
                string_views(upstream_hosts@) == hosts_of(eff.take(i as int)),
                forall|j: int| 0 <= j < i ==> url_parses(#[trigger] eff[j]),
            decreases upstream_caches@.len() - i,
        {
            let ghost pre_hosts = upstream_hosts@;
            match url_host(upstream_caches[i].as_str()) {
                Ok(h) => {
                    proof {
                        lemma_hosts_of_push(eff.take(i as int), eff[i as int]);
                        assert(eff.take(i as int).push(eff[i as int]) =~= eff.take(i + 1));
                    }
                    match h {
                        Some(host) => {
                            proof {
                                assert(host_of(eff[i as int]) == Some(host@));
                            }
                            upstream_hosts.push(host);
                            proof {
                                assert(string_views(upstream_hosts@) =~= hosts_of(
                                    eff.take(i + 1),
                                ));
                            }
                        },
                        None => {
                            proof {
                                assert(host_of(eff[i as int]) is None);
                                assert(hosts_of(eff.take(i + 1)) =~= hosts_of(eff.take(i as int))
                                    + Seq::<Seq<char>>::empty());
                                assert(string_views(upstream_hosts@) =~= hosts_of(
                                    eff.take(i + 1),
                                ));
                            }
                        },
                    }
                },
                Err(e) => {
                    proof {
                        assert(!url_parses(effective_upstreams(*cli)[i as int]));
                    }
                    return Err(e);
                },
            }
            i = i + 1;
        }
        proof {
            assert(eff.take(eff.len() as int) =~= eff);
            assert(string_views(upstream_hosts@) == hosts_of(effective_upstreams(*cli)));
            assert forall|j: int|
                0 <= j < effective_upstreams(*cli).len() implies url_parses(
                #[trigger] effective_upstreams(*cli)[j],
            ) by {
                assert(url_parses(eff[j]));
            }
        }
        Ok(
            Push {
                upstream_caches,
                upstream_hosts,
                counters: Counters::new(),
                failures: Vec::new(),
                phase: Phase::Idle,
            },
        )
    }

    /// Record one per-path failure; the run continues.
    pub fn record_failure(&mut self, absolute_path: String)
        ensures
            final(self).failures@ == old(self).failures@.push(absolute_path),
            final(self).upstream_caches == old(self).upstream_caches,
            final(self).upstream_hosts == old(self).upstream_hosts,
            final(self).counters == old(self).counters,
            final(self).phase == old(self).phase,
    {
        self.failures.push(absolute_path);
    }

    /// Advance to the next stage of the run. Stages pass strictly in
    /// order; the terminal stage is reached whether or not individual
    /// uploads failed.
    pub fn advance_phase(&mut self)
        requires
            old(self).phase != Phase::Done,
        ensures
            final(self).phase == next_phase(old(self).phase),
            final(self).upstream_caches == old(self).upstream_caches,
            final(self).upstream_hosts == old(self).upstream_hosts,
            final(self).counters == old(self).counters,
            final(self).failures == old(self).failures,
    {
        self.phase = match self.phase {
            Phase::Idle => Phase::ResolvingClosure,
            Phase::ResolvingClosure => Phase::Pipelining,
            Phase::Pipelining => Phase::Reporting,
            Phase::Reporting => Phase::Done,
            Phase::Done => Phase::Done,
        };
    }
}

/// The decimal rendering of `n`, as characters.
pub open spec fn decimal_chars(n: u64) -> Seq<char> {
    crate::encoding::spec_decimal(n as nat).map_values(|b: u8| b as char)
}

/// One count line of the final report.
pub open spec fn count_line(label: Seq<char>, n: u64) -> Seq<char> {
    label + decimal_chars(n)
}

/// Render one labelled count.
fn render_count(label: &str, n: u64) -> (r: String)
    requires
        vstd::string::is_ascii(label),
    ensures
        r@ == count_line(label@, n),
{
    let mut out: Vec<u8> = Vec::new();
    crate::narinfo::push_str_ascii(&mut out, label);
    crate::narinfo::push_decimal(&mut out, n);
    proof {
        crate::encoding::lemma_decimal_is_digits(n as nat);
        assert forall|i: int| 0 <= i < out@.len() implies out@[i] < 128 by {
            if i < label@.len() {
                assert(out@[i] == crate::narinfo::ascii_bytes(label@)[i]);
            } else {
                assert(out@[i] == crate::encoding::spec_decimal(n as nat)[i - label@.len()]);
            }
        }
    }
    let s = crate::encoding::ascii_to_string(out);
    proof {
        assert forall|i: int| 0 <= i < s@.len() implies s@[i] == count_line(label@, n)[i] by {
            if i < label@.len() {
                assert(s@[i] == (label@[i] as u8) as char);
                assert((label@[i] as u8) < 128);
            }
        }
        assert(s@ =~= count_line(label@, n));
    }
    s
}

impl Push {
    /// The user-facing report of one finished run: the four counts, each
    /// on its own labelled line, in a fixed order. Only the reporting
    /// stage produces output.
    pub fn report_lines(&self) -> (r: Vec<String>)
        ensures
            r@.len() == 4,
            r@[0]@ == count_line("uploaded: "@, self.counters.uploaded),
            r@[1]@ == count_line("skipped because of signature match: "@, self.counters.signature_hits),
            r@[2]@ == count_line("skipped because of upstream hit: "@, self.counters.upstream_hits),
            r@[3]@ == count_line("skipped because already exist: "@, self.counters.already_exists),
    {
        proof {
            reveal_strlit("uploaded: ");
            reveal_strlit("skipped because of signature match: ");
            reveal_strlit("skipped because of upstream hit: ");
            reveal_strlit("skipped because already exist: ");
        }
        let mut r: Vec<String> = Vec::new();
        r.push(render_count("uploaded: ", self.counters.uploaded));
        r.push(render_count("skipped because of signature match: ", self.counters.signature_hits));
        r.push(render_count("skipped because of upstream hit: ", self.counters.upstream_hits));
        r.push(render_count("skipped because already exist: ", self.counters.already_exists));
        r
    }
}

pub open spec fn next_phase(p: Phase) -> Phase {
    match p {
        Phase::Idle => Phase::ResolvingClosure,
        Phase::ResolvingClosure => Phase::Pipelining,
        Phase::Pipelining => Phase::Reporting,
        Phase::Reporting => Phase::Done,
        Phase::Done => Phase::Done,
    }
}

} // verus!
