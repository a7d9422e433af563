//! `networks-of-nameservers`: the IP networks where each input domain's
//! nameservers are located, and the decisions of a run. For every domain the
//! run asks for its RDAP object; for every IP address listed on one of its
//! nameservers it asks for the containing network. When the domain object
//! lists no IP address for a named nameserver, it first asks for that
//! nameserver's own object. The caller performs the lookups and hands their
//! outcome back.

use vstd::prelude::*;
use crate::input::{entry_views, InputEntry};
use crate::ip_networks::strings_of;
use crate::output::Record;
use crate::rdap::{
    nameserver_ips, nameserver_ips_of, nameserver_name, nameserver_name_of, DomainInfo,
    NameserverInfo, NetworkInfo,
};
use crate::report::{
    columns_of, count_true, lemma_count_true, no_columns, NetworkColumns, NetworkColumnsView,
};
use crate::text::{join, push_joined, views};

verus! {

/// One output row of `networks-of-nameservers`.
pub struct NsNetworkRow {
    pub domain: String,
    pub nameserver: String,
    pub ip: String,
    pub network: NetworkColumns,
    pub error: String,
}

/// The view of an output row.
pub struct NsNetworkRowView {
    pub domain: Seq<char>,
    pub nameserver: Seq<char>,
    pub ip: Seq<char>,
    pub network: NetworkColumnsView,
    pub error: Seq<char>,
}

impl View for NsNetworkRow {
    type V = NsNetworkRowView;

    open spec fn view(&self) -> NsNetworkRowView {
        NsNetworkRowView {
            domain: self.domain@,
            nameserver: self.nameserver@,
            ip: self.ip@,
            network: self.network@,
            error: self.error@,
        }
    }
}

/// The row for an address of a nameserver whose network was found.
pub open spec fn found_ns_row(
    domain: Seq<char>,
    nameserver: Seq<char>,
    ip: Seq<char>,
    net: NetworkInfo,
) -> NsNetworkRowView {
    NsNetworkRowView { domain, nameserver, ip, network: columns_of(net), error: Seq::empty() }
}

/// A row that failed with `error`, carrying what was known at that point.
pub open spec fn failed_ns_row(
    domain: Seq<char>,
    nameserver: Seq<char>,
    ip: Seq<char>,
    error: Seq<char>,
) -> NsNetworkRowView {
    NsNetworkRowView { domain, nameserver, ip, network: no_columns(), error }
}

/// The CSV columns of a row: the CIDR blocks are joined with `|`.
pub open spec fn ns_row_fields(r: NsNetworkRowView) -> Seq<Seq<char>> {
    seq![
        r.domain,
        r.nameserver,
        r.ip,
        r.network.handle,
        r.network.network_name,
        r.network.registrant,
        r.network.abuse,
        r.network.administrative,
        r.network.technical,
        r.network.start_address,
        r.network.end_address,
        join(r.network.cidr_blocks, "|"@),
        r.error,
    ]
}

impl NsNetworkRow {
    /// The row for address `ip` of `nameserver` of `domain`, whose network is `net`.
    pub fn found(domain: String, nameserver: String, ip: String, net: &NetworkInfo) -> (r:
        NsNetworkRow)
        ensures
            r@ == found_ns_row(domain@, nameserver@, ip@, *net),
    {
        NsNetworkRow {
            domain,
            nameserver,
            ip,
            network: NetworkColumns::from_network(net),
            error: String::new(),
        }
    }

    /// A row that failed with `error`.
    pub fn failed(domain: String, nameserver: String, ip: String, error: String) -> (r:
        NsNetworkRow)
        ensures
            r@ == failed_ns_row(domain@, nameserver@, ip@, error@),
    {
        NsNetworkRow { domain, nameserver, ip, network: NetworkColumns::empty(), error }
    }
}

impl Record for NsNetworkRow {
    open spec fn header_view() -> Seq<Seq<char>> {
        seq![
            "domain"@,
            "nameserver"@,
            "ip"@,
            "handle"@,
            "network_name"@,
            "registrant"@,
            "abuse"@,
            "administrative"@,
            "technical"@,
            "start_address"@,
            "end_address"@,
            "cidr_blocks"@,
            "error"@,
        ]
    }

    open spec fn row_view(&self) -> Seq<Seq<char>> {
        ns_row_fields(self@)
    }

    fn header() -> (h: Vec<String>) {
        let h = strings_of(
            &[
                "domain",
                "nameserver",
                "ip",
                "handle",
                "network_name",
                "registrant",
                "abuse",
                "administrative",
                "technical",
                "start_address",
                "end_address",
                "cidr_blocks",
                "error",
            ],
        );
        assert(views(h@) =~= Self::header_view());
        h
    }

    fn row(&self) -> (r: Vec<String>) {
        let n = &self.network;
        let mut cidrs = String::new();
        push_joined(&mut cidrs, &n.cidr_blocks, "|");
        let mut r: Vec<String> = Vec::new();
        r.push(self.domain.clone());
        r.push(self.nameserver.clone());
        r.push(self.ip.clone());
        r.push(n.handle.clone());
        r.push(n.network_name.clone());
        r.push(n.registrant.clone());
        r.push(n.abuse.clone());
        r.push(n.administrative.clone());
        r.push(n.technical.clone());
        r.push(n.start_address.clone());
        r.push(n.end_address.clone());
        r.push(cidrs);
        r.push(self.error.clone());
        assert(views(r@) =~= ns_row_fields(self@));
        r
    }
}

/// What a run waits for.
#[derive(PartialEq, Eq, Structural)]
pub enum NsWait {
    /// Nothing: the run can take its next step.
    Idle,
    /// The outcome of the lookup of the current domain.
    Domain,
    /// The outcome of the lookup of the current nameserver by name.
    Nameserver,
    /// The outcome of the lookup of the network of the current address.
    Network,
}

/// What a run asks its caller to do next.
pub enum NsStep {
    /// Print this warning; the row for it is already recorded.
    Warn(String),
    /// Look up this domain; hand the outcome to `domain_result`.
    LookupDomain(String),
    /// Look up this nameserver by name; hand the outcome to `nameserver_result`.
    LookupNameserver(String),
    /// Look up the network of this address; hand the outcome to `network_result`.
    LookupNetwork(String),
    /// Every input entry has its rows.
    Done,
}

/// The state of a run: the input entries and how many have been taken; the
/// current domain, its nameservers and how many have been taken; the name of
/// the current nameserver, its addresses and how many have been taken; the
/// current address; what the run waits for; the rows so far, the number of
/// failed rows (capped at `usize::MAX`), which rows failed, and the entry
/// each row belongs to.
pub struct NsRunView {
    pub entries: Seq<Result<Seq<char>, Seq<char>>>,
    pub next: nat,
    pub domain: Seq<char>,
    pub nameservers: Seq<NameserverInfo>,
    pub ns_next: nat,
    pub ns_name: Seq<char>,
    pub ips: Seq<Seq<char>>,
    pub ip_next: nat,
    pub ip: Seq<char>,
    pub wait: NsWait,
    pub rows: Seq<NsNetworkRowView>,
    pub errors: nat,
    pub failed: Seq<bool>,
    pub origin: Seq<int>,
}

/// `n`, capped at `usize::MAX`.
pub open spec fn capped(n: nat) -> nat {
    if n > usize::MAX {
        usize::MAX as nat
    } else {
        n
    }
}

/// Whether entry `i` has at least one row.
pub open spec fn covered(v: NsRunView, i: int) -> bool {
    exists|k: int| 0 <= k < v.origin.len() && v.origin[k] == i
}

/// Whether `row` (failed or not, as `failed` says) belongs to `entry`: an
/// unreadable entry gives a failed row with its message and nothing else; a
/// domain gives rows for that domain, whose error is empty when they did not
/// fail and whose network columns are empty when they did.
pub open spec fn ns_row_fits(
    entry: Result<Seq<char>, Seq<char>>,
    row: NsNetworkRowView,
    failed: bool,
) -> bool {
    match entry {
        Err(m) => failed && row == failed_ns_row(Seq::empty(), Seq::empty(), Seq::empty(), m),
        Ok(domain) => {
            &&& row.domain == domain
            &&& failed ==> row.network == no_columns()
            &&& !failed ==> row.error == Seq::<char>::empty()
        },
    }
}

/// The invariant of the rows of a run: each row belongs to an entry taken so
/// far, in input order, and fits it; every entry before the current one has a
/// row; `errors` counts the failed rows.
pub open spec fn ns_rows_wf(v: NsRunView) -> bool {
    &&& v.next <= v.entries.len()
    &&& v.failed.len() == v.rows.len()
    &&& v.origin.len() == v.rows.len()
    &&& v.errors == capped(count_true(v.failed))
    &&& forall|k: int| 0 <= k < v.origin.len() ==> 0 <= #[trigger] v.origin[k] < v.next
    &&& forall|j: int, k: int| 0 <= j <= k < v.origin.len() ==> v.origin[j] <= v.origin[k]
    &&& forall|k: int|
        0 <= k < v.rows.len() ==> ns_row_fits(v.entries[v.origin[k]], #[trigger] v.rows[k], v.failed[k])
    &&& forall|i: int| 0 <= i < v.next - 1 ==> covered(v, i)
}

/// The invariant of a run: the rows invariant, and the bookkeeping of the
/// current domain, nameserver and address. Once nothing is outstanding for
/// the current entry except nameservers not yet taken (none of which has been
/// taken), it has a row.
pub open spec fn ns_run_wf(v: NsRunView) -> bool {
    &&& ns_rows_wf(v)
    &&& v.ns_next <= v.nameservers.len()
    &&& v.ip_next <= v.ips.len()
    &&& (v.wait != NsWait::Idle || v.ns_next < v.nameservers.len() || v.ip_next < v.ips.len())
        ==> v.next >= 1 && v.entries[v.next - 1] == Ok::<Seq<char>, Seq<char>>(v.domain)
    &&& v.wait == NsWait::Domain ==> v.ns_next == v.nameservers.len() && v.ip_next == v.ips.len()
    &&& v.wait == NsWait::Nameserver ==> v.ns_next >= 1 && v.ip_next == v.ips.len()
    &&& v.wait == NsWait::Network ==> v.ns_next >= 1 && v.ip_next >= 1
    &&& v.ip_next < v.ips.len() ==> v.ns_next >= 1
    &&& (v.next >= 1 && v.wait == NsWait::Idle && v.ip_next == v.ips.len() && (v.ns_next
        == v.nameservers.len() || v.ns_next >= 1)) ==> covered(v, v.next - 1)
}

/// The state after recording `row` for the current entry.
pub open spec fn ns_push_row(v: NsRunView, row: NsNetworkRowView, failed: bool) -> NsRunView {
    NsRunView {
        rows: v.rows.push(row),
        errors: if failed {
            capped(v.errors + 1)
        } else {
            v.errors
        },
        failed: v.failed.push(failed),
        origin: v.origin.push(v.next - 1),
        ..v
    }
}

/// The message of a nameserver without any address.
pub open spec fn no_ips_message() -> Seq<char> {
    "nameserver has no IP addresses"@
}

/// The message of a domain without nameservers.
pub open spec fn no_nameservers_message() -> Seq<char> {
    "no nameservers listed for domain"@
}

/// The state after `next_step`: the next address of the current nameserver
/// is to be looked up; else the next nameserver is taken (looked up by name
/// when it lists no address but has a name, recorded as failed when it lists
/// no address and has no name, else its first address is to be looked up);
/// else the next entry is taken (an unreadable one recorded as failed, a
/// domain to be looked up).
pub open spec fn ns_after_step(v: NsRunView) -> NsRunView {
    if v.ip_next < v.ips.len() {
        NsRunView { ip_next: v.ip_next + 1, ip: v.ips[v.ip_next as int], wait: NsWait::Network, ..v }
    } else if v.ns_next < v.nameservers.len() {
        let ns = v.nameservers[v.ns_next as int];
        let name = nameserver_name_of(ns);
        let ips = nameserver_ips_of(ns);
        let v1 = NsRunView { ns_next: v.ns_next + 1, ns_name: name, ..v };
        if ips.len() == 0 && name.len() > 0 {
            NsRunView { wait: NsWait::Nameserver, ..v1 }
        } else if ips.len() == 0 {
            ns_push_row(v1, failed_ns_row(v.domain, name, Seq::empty(), no_ips_message()), true)
        } else {
            NsRunView { ips, ip_next: 1, ip: ips[0], wait: NsWait::Network, ..v1 }
        }
    } else if v.next < v.entries.len() {
        match v.entries[v.next as int] {
            Err(m) => ns_push_row(
                NsRunView { next: v.next + 1, ..v },
                failed_ns_row(Seq::empty(), Seq::empty(), Seq::empty(), m),
                true,
            ),
            Ok(d) => NsRunView { next: v.next + 1, domain: d, wait: NsWait::Domain, ..v },
        }
    } else {
        v
    }
}

/// The step that `next_step` returns in state `v`.
pub open spec fn ns_step_is(step: NsStep, v: NsRunView) -> bool {
    if v.ip_next < v.ips.len() {
        step matches NsStep::LookupNetwork(a) && a@ == v.ips[v.ip_next as int]
    } else if v.ns_next < v.nameservers.len() {
        let ns = v.nameservers[v.ns_next as int];
        let name = nameserver_name_of(ns);
        let ips = nameserver_ips_of(ns);
        if ips.len() == 0 && name.len() > 0 {
            step matches NsStep::LookupNameserver(n) && n@ == name
        } else if ips.len() == 0 {
            step matches NsStep::Warn(w) && w@ == v.domain + " ("@ + name + "): "@ + no_ips_message()
        } else {
            step matches NsStep::LookupNetwork(a) && a@ == ips[0]
        }
    } else if v.next < v.entries.len() {
        match v.entries[v.next as int] {
            Err(m) => step matches NsStep::Warn(w) && w@ == m,
            Ok(d) => step matches NsStep::LookupDomain(a) && a@ == d,
        }
    } else {
        step is Done
    }
}

/// The state after the lookup of the current domain ended with `result`: a
/// failure, or a domain without nameservers, is recorded as a failed row;
/// otherwise its nameservers are to be taken.
pub open spec fn ns_after_domain(v: NsRunView, result: Result<DomainInfo, String>) -> NsRunView {
    let idle = NsRunView { wait: NsWait::Idle, ..v };
    match result {
        Err(e) => ns_push_row(idle, failed_ns_row(v.domain, Seq::empty(), Seq::empty(), e@), true),
        Ok(d) => if d.nameservers@.len() == 0 {
            ns_push_row(
                idle,
                failed_ns_row(v.domain, Seq::empty(), Seq::empty(), no_nameservers_message()),
                true,
            )
        } else {
            NsRunView { nameservers: d.nameservers@, ns_next: 0, ..idle }
        },
    }
}

/// The warning after the lookup of the current domain ended with `result`.
pub open spec fn ns_domain_warning(v: NsRunView, result: Result<DomainInfo, String>) -> Option<
    Seq<char>,
> {
    match result {
        Err(e) => Some(v.domain + ": "@ + e@),
        Ok(d) => if d.nameservers@.len() == 0 {
            Some(v.domain + ": "@ + no_nameservers_message())
        } else {
            None
        },
    }
}

/// The message of a nameserver whose lookup by name failed with `e`.
pub open spec fn ns_lookup_failed_message(e: Seq<char>) -> Seq<char> {
    "no IP addresses in domain response; nameserver lookup failed: "@ + e
}

/// The state after the lookup of the current nameserver ended with `result`:
/// its addresses are to be looked up, or, when it has none or the lookup
/// failed, a failed row is recorded.
pub open spec fn ns_after_nameserver(v: NsRunView, result: Result<NameserverInfo, String>) -> NsRunView {
    let idle = NsRunView { wait: NsWait::Idle, ..v };
    match result {
        Ok(found) => {
            let ips = nameserver_ips_of(found);
            if ips.len() == 0 {
                ns_push_row(
                    idle,
                    failed_ns_row(v.domain, v.ns_name, Seq::empty(), no_ips_message()),
                    true,
                )
            } else {
                NsRunView { ips, ip_next: 0, ..idle }
            }
        },
        Err(e) => ns_push_row(
            idle,
            failed_ns_row(v.domain, v.ns_name, Seq::empty(), ns_lookup_failed_message(e@)),
            true,
        ),
    }
}

/// The warning after the lookup of the current nameserver ended with `result`.
pub open spec fn ns_nameserver_warning(v: NsRunView, result: Result<NameserverInfo, String>) -> Option<
    Seq<char>,
> {
    match result {
        Ok(found) => if nameserver_ips_of(found).len() == 0 {
            Some(v.domain + " ("@ + v.ns_name + "): "@ + no_ips_message())
        } else {
            None
        },
        Err(e) => Some(v.domain + " ("@ + v.ns_name + "): "@ + e@),
    }
}

/// The state after the lookup of the network of the current address ended
/// with `result`: the row for that address is recorded.
pub open spec fn ns_after_network(v: NsRunView, result: Result<NetworkInfo, String>) -> NsRunView {
    let idle = NsRunView { wait: NsWait::Idle, ..v };
    match result {
        Ok(net) => ns_push_row(idle, found_ns_row(v.domain, v.ns_name, v.ip, net), false),
        Err(e) => ns_push_row(idle, failed_ns_row(v.domain, v.ns_name, v.ip, e@), true),
    }
}

/// The warning after the lookup of the network of the current address ended
/// with `result`.
pub open spec fn ns_network_warning(v: NsRunView, result: Result<NetworkInfo, String>) -> Option<
    Seq<char>,
> {
    match result {
        Ok(_) => None,
        Err(e) => Some(v.domain + " ("@ + v.ns_name + ", "@ + v.ip + "): "@ + e@),
    }
}

/// Whether an optional warning is the expected one.
pub open spec fn warning_is(w: Option<String>, expected: Option<Seq<char>>) -> bool {
    match (w, expected) {
        (Some(s), Some(m)) => s@ == m,
        (None, None) => true,
        _ => false,
    }
}

/// The views of a list of rows.
pub open spec fn ns_row_views(rows: Seq<NsNetworkRow>) -> Seq<NsNetworkRowView> {
    rows.map_values(|r: NsNetworkRow| r@)
}

/// Two states with the same entries and rows agree on the rows invariant and
/// on which entries have rows.
proof fn lemma_same_rows(v: NsRunView, w: NsRunView)
    requires
        w.entries == v.entries,
        w.next == v.next,
        w.rows == v.rows,
        w.errors == v.errors,
        w.failed == v.failed,
        w.origin == v.origin,
    ensures
        ns_rows_wf(v) ==> ns_rows_wf(w),
        forall|i: int| covered(v, i) <==> #[trigger] covered(w, i),
{
    assert forall|i: int| covered(v, i) <==> #[trigger] covered(w, i) by {
        if covered(v, i) {
            let k = choose|k: int| 0 <= k < v.origin.len() && v.origin[k] == i;
            assert(w.origin[k] == i);
        }
        if covered(w, i) {
            let k = choose|k: int| 0 <= k < w.origin.len() && w.origin[k] == i;
            assert(v.origin[k] == i);
        }
    }
    if ns_rows_wf(v) {
        assert forall|i: int| 0 <= i < w.next - 1 implies covered(w, i) by {
            assert(covered(v, i));
        }
    }
}

/// Recording a row that fits the current entry keeps the rows invariant and
/// gives the current entry a row.
proof fn lemma_ns_push(v: NsRunView, row: NsNetworkRowView, failed: bool)
    requires
        ns_rows_wf(v),
        v.next >= 1,
        ns_row_fits(v.entries[v.next - 1], row, failed),
    ensures
        ns_rows_wf(ns_push_row(v, row, failed)),
        covered(ns_push_row(v, row, failed), v.next - 1),
        forall|i: int| covered(v, i) ==> covered(ns_push_row(v, row, failed), i),
{
    let w = ns_push_row(v, row, failed);
    lemma_count_true(v.failed);
    assert(w.failed.drop_last() =~= v.failed);
    assert(w.origin[v.origin.len() as int] == v.next - 1);
    assert forall|i: int| covered(v, i) implies covered(w, i) by {
        let k = choose|k: int| 0 <= k < v.origin.len() && v.origin[k] == i;
        assert(w.origin[k] == i);
    }
    assert forall|j: int, k: int| 0 <= j <= k < w.origin.len() implies w.origin[j]
        <= w.origin[k] by {
        if k < v.origin.len() {
            assert(w.origin[j] == v.origin[j]);
            assert(w.origin[k] == v.origin[k]);
        } else if j < v.origin.len() {
            assert(w.origin[j] == v.origin[j]);
        }
    }
    assert forall|k: int| 0 <= k < w.rows.len() implies ns_row_fits(
        w.entries[w.origin[k]],
        #[trigger] w.rows[k],
        w.failed[k],
    ) by {
        if k < v.rows.len() {
            assert(w.rows[k] == v.rows[k]);
            assert(w.failed[k] == v.failed[k]);
            assert(w.origin[k] == v.origin[k]);
        }
    }
    assert(covered(w, v.next - 1));
}

/// The decisions of a `networks-of-nameservers` run.
pub struct NameserverNetworksRun {
    entries: Vec<InputEntry>,
    next: usize,
    domain: String,
    nameservers: Vec<NameserverInfo>,
    ns_next: usize,
    ns_name: String,
    ips: Vec<String>,
    ip_next: usize,
    ip: String,
    wait: NsWait,
    rows: Vec<NsNetworkRow>,
    errors: usize,
    failed: Ghost<Seq<bool>>,
    origin: Ghost<Seq<int>>,
}

impl View for NameserverNetworksRun {
    type V = NsRunView;

    closed spec fn view(&self) -> NsRunView {
        NsRunView {
            entries: entry_views(self.entries@),
            next: self.next as nat,
            domain: self.domain@,
            nameservers: self.nameservers@,
            ns_next: self.ns_next as nat,
            ns_name: self.ns_name@,
            ips: views(self.ips@),
            ip_next: self.ip_next as nat,
            ip: self.ip@,
            wait: self.wait,
            rows: ns_row_views(self.rows@),
            errors: self.errors as nat,
            failed: self.failed@,
            origin: self.origin@,
        }
    }
}

impl NameserverNetworksRun {
    /// Starts a run over `entries`, read from `input`; refuses an input that
    /// holds no entries.
    pub fn start(entries: Vec<InputEntry>, input: &str) -> (r: Result<
        NameserverNetworksRun,
        String,
    >)
        ensures
            match r {
                Ok(run) => {
                    &&& entries@.len() > 0
                    &&& ns_run_wf(run@)
                    &&& run@.entries == entry_views(entries@)
                    &&& run@.next == 0 && run@.wait == NsWait::Idle
                    &&& run@.nameservers.len() == 0 && run@.ips.len() == 0
                    &&& run@.rows.len() == 0 && run@.errors == 0
                },
                Err(m) => entries@.len() == 0 && m@ == "no items found in "@ + input@,
            },
    {
        if entries.len() == 0 {
            let mut m = String::from_str("no items found in ");
            m.append(input);
            return Err(m);
        }
        let run = NameserverNetworksRun {
            entries,
            next: 0,
            domain: String::new(),
            nameservers: Vec::new(),
            ns_next: 0,
            ns_name: String::new(),
            ips: Vec::new(),
            ip_next: 0,
            ip: String::new(),
            wait: NsWait::Idle,
            rows: Vec::new(),
            errors: 0,
            failed: Ghost(Seq::empty()),
            origin: Ghost(Seq::empty()),
        };
        assert(ns_row_views(run.rows@) =~= Seq::<NsNetworkRowView>::empty());
        assert(views(run.ips@) =~= Seq::<Seq<char>>::empty());
        Ok(run)
    }

    /// What the run waits for.
    pub fn waiting_for(&self) -> (w: NsWait)
        ensures
            w == self@.wait,
    {
        match self.wait {
            NsWait::Idle => NsWait::Idle,
            NsWait::Domain => NsWait::Domain,
            NsWait::Nameserver => NsWait::Nameserver,
            NsWait::Network => NsWait::Network,
        }
    }

    /// Records `row` for the current entry.
    fn record(&mut self, row: NsNetworkRow, failed: bool)
        requires
            old(self)@.next >= 1,
        ensures
            final(self)@ == ns_push_row(old(self)@, row@, failed),
    {
        let ghost v = self@;
        let ghost rv = row@;
        let ghost prev = self.rows@;
        self.rows.push(row);
        if failed {
            self.errors = self.errors.saturating_add(1);
        }
        self.failed = Ghost(self.failed@.push(failed));
        self.origin = Ghost(self.origin@.push(self.next - 1));
        assert(ns_row_views(self.rows@) =~= ns_row_views(prev).push(rv));
        assert(self@ =~= ns_push_row(v, rv, failed));
    }

    /// Takes the next step: the next address to look up, the next nameserver,
    /// or the next input entry.
    pub fn next_step(&mut self) -> (step: NsStep)
        requires
            ns_run_wf(old(self)@),
            old(self)@.wait == NsWait::Idle,
        ensures
            ns_run_wf(final(self)@),
            final(self)@ == ns_after_step(old(self)@),
            ns_step_is(step, old(self)@),
    {
        let ghost v = self@;
        if self.ip_next < self.ips.len() {
            let a = self.ips[self.ip_next].clone();
            self.ip = a.clone();
            self.ip_next = self.ip_next + 1;
            self.wait = NsWait::Network;
            assert(self@ =~= ns_after_step(v));
            proof {
                lemma_same_rows(v, self@);
            }
            return NsStep::LookupNetwork(a);
        }
        if self.ns_next < self.nameservers.len() {
            let k = self.ns_next;
            let name = nameserver_name(&self.nameservers[k]);
            let ips = nameserver_ips(&self.nameservers[k]);
            self.ns_next = k + 1;
            self.ns_name = name.clone();
            let ghost v1 = self@;
            assert(v1 =~= NsRunView { ns_next: v.ns_next + 1, ns_name: name@, ..v });
            proof {
                lemma_same_rows(v, v1);
            }
            if ips.len() == 0 && name.as_str().is_empty() == false {
                self.wait = NsWait::Nameserver;
                assert(self@ =~= ns_after_step(v));
                proof {
                    lemma_same_rows(v, self@);
                }
                return NsStep::LookupNameserver(name);
            }
            if ips.len() == 0 {
                let mut w = self.domain.clone();
                w.append(" (");
                w.append(name.as_str());
                w.append("): ");
                w.append("nameserver has no IP addresses");
                let row = NsNetworkRow::failed(
                    self.domain.clone(),
                    name,
                    String::new(),
                    String::from_str("nameserver has no IP addresses"),
                );
                proof {
                    lemma_ns_push(v1, row@, true);
                }
                self.record(row, true);
                assert(self@ =~= ns_after_step(v));
                return NsStep::Warn(w);
            }
            let a = ips[0].clone();
            self.ips = ips;
            self.ip_next = 1;
            self.ip = a.clone();
            self.wait = NsWait::Network;
            assert(self@ =~= ns_after_step(v));
            proof {
                lemma_same_rows(v, self@);
            }
            return NsStep::LookupNetwork(a);
        }
        if self.next < self.entries.len() {
            let k = self.next;
            match &self.entries[k] {
                Err(m) => {
                    let msg = m.clone();
                    self.next = k + 1;
                    let ghost v1 = self@;
                    assert forall|i: int| 0 <= i < v1.next - 1 implies covered(v1, i) by {
                        if i < v.next - 1 {
                            assert(covered(v, i));
                        } else {
                            assert(covered(v, v.next - 1));
                        }
                        assert(v1.origin == v.origin);
                    }
                    let row = NsNetworkRow::failed(
                        String::new(),
                        String::new(),
                        String::new(),
                        msg.clone(),
                    );
                    proof {
                        lemma_ns_push(v1, row@, true);
                    }
                    self.record(row, true);
                    assert(self@ =~= ns_after_step(v));
                    return NsStep::Warn(msg);
                },
                Ok(d) => {
                    let domain = d.clone();
                    self.next = k + 1;
                    self.domain = domain.clone();
                    self.wait = NsWait::Domain;
                    assert(self@ =~= ns_after_step(v));
                    assert forall|i: int| 0 <= i < self@.next - 1 implies covered(self@, i) by {
                        if i < v.next - 1 {
                            assert(covered(v, i));
                        } else {
                            assert(covered(v, v.next - 1));
                        }
                        assert(self@.origin == v.origin);
                    }
                    return NsStep::LookupDomain(domain);
                },
            }
        }
        proof {
            lemma_same_rows(v, self@);
        }
        NsStep::Done
    }

    /// Records the outcome of the lookup of the current domain, and returns
    /// the warning to print, if any.
    pub fn domain_result(&mut self, result: Result<DomainInfo, String>) -> (warning: Option<String>)
        requires
            ns_run_wf(old(self)@),
            old(self)@.wait == NsWait::Domain,
        ensures
            ns_run_wf(final(self)@),
            final(self)@ == ns_after_domain(old(self)@, result),
            warning_is(warning, ns_domain_warning(old(self)@, result)),
    {
        let ghost v = self@;
        self.wait = NsWait::Idle;
        let ghost idle = self@;
        assert(idle =~= NsRunView { wait: NsWait::Idle, ..v });
        proof {
            lemma_same_rows(v, idle);
        }
        match result {
            Err(e) => {
                let mut w = self.domain.clone();
                w.append(": ");
                w.append(e.as_str());
                let row = NsNetworkRow::failed(self.domain.clone(), String::new(), String::new(), e);
                proof {
                    lemma_ns_push(idle, row@, true);
                }
                self.record(row, true);
                Some(w)
            },
            Ok(d) => {
                if d.nameservers.len() == 0 {
                    let mut w = self.domain.clone();
                    w.append(": ");
                    w.append("no nameservers listed for domain");
                    let row = NsNetworkRow::failed(
                        self.domain.clone(),
                        String::new(),
                        String::new(),
                        String::from_str("no nameservers listed for domain"),
                    );
                    proof {
                        lemma_ns_push(idle, row@, true);
                    }
                    self.record(row, true);
                    Some(w)
                } else {
                    let ghost nss = d.nameservers@;
                    self.nameservers = d.nameservers;
                    self.ns_next = 0;
                    assert(self@ =~= NsRunView { nameservers: nss, ns_next: 0, ..idle });
                    proof {
                        lemma_same_rows(idle, self@);
                    }
                    None
                }
            },
        }
    }

    /// Records the outcome of the lookup of the current nameserver by name,
    /// and returns the warning to print, if any.
    pub fn nameserver_result(&mut self, result: Result<NameserverInfo, String>) -> (warning: Option<
        String,
    >)
        requires
            ns_run_wf(old(self)@),
            old(self)@.wait == NsWait::Nameserver,
        ensures
            ns_run_wf(final(self)@),
            final(self)@ == ns_after_nameserver(old(self)@, result),
            warning_is(warning, ns_nameserver_warning(old(self)@, result)),
    {
        let ghost v = self@;
        self.wait = NsWait::Idle;
        let ghost idle = self@;
        assert(idle =~= NsRunView { wait: NsWait::Idle, ..v });
        proof {
            lemma_same_rows(v, idle);
        }
        match result {
            Ok(found) => {
                let ips = nameserver_ips(&found);
                if ips.len() == 0 {
                    let mut w = self.domain.clone();
                    w.append(" (");
                    w.append(self.ns_name.as_str());
                    w.append("): ");
                    w.append("nameserver has no IP addresses");
                    let row = NsNetworkRow::failed(
                        self.domain.clone(),
                        self.ns_name.clone(),
                        String::new(),
                        String::from_str("nameserver has no IP addresses"),
                    );
                    proof {
                        lemma_ns_push(idle, row@, true);
                    }
                    self.record(row, true);
                    Some(w)
                } else {
                    let ghost iv = views(ips@);
                    self.ips = ips;
                    self.ip_next = 0;
                    assert(self@ =~= NsRunView { ips: iv, ip_next: 0, ..idle });
                    proof {
                        lemma_same_rows(idle, self@);
                    }
                    None
                }
            },
            Err(e) => {
                let mut w = self.domain.clone();
                w.append(" (");
                w.append(self.ns_name.as_str());
                w.append("): ");
                w.append(e.as_str());
                let mut msg = String::from_str(
                    "no IP addresses in domain response; nameserver lookup failed: ",
                );
                msg.append(e.as_str());
                let row = NsNetworkRow::failed(
                    self.domain.clone(),
                    self.ns_name.clone(),
                    String::new(),
                    msg,
                );
                proof {
                    lemma_ns_push(idle, row@, true);
                }
                self.record(row, true);
                Some(w)
            },
        }
    }

    /// Records the outcome of the lookup of the network of the current
    /// address, and returns the warning to print, if any.
    pub fn network_result(&mut self, result: Result<NetworkInfo, String>) -> (warning: Option<String>)
        requires
            ns_run_wf(old(self)@),
            old(self)@.wait == NsWait::Network,
        ensures
            ns_run_wf(final(self)@),
            final(self)@ == ns_after_network(old(self)@, result),
            warning_is(warning, ns_network_warning(old(self)@, result)),
    {
        let ghost v = self@;
        self.wait = NsWait::Idle;
        let ghost idle = self@;
        assert(idle =~= NsRunView { wait: NsWait::Idle, ..v });
        proof {
            lemma_same_rows(v, idle);
        }
        match result {
            Ok(net) => {
                let row = NsNetworkRow::found(
                    self.domain.clone(),
                    self.ns_name.clone(),
                    self.ip.clone(),
                    &net,
                );
                proof {
                    lemma_ns_push(idle, row@, false);
                }
                self.record(row, false);
                None
            },
            Err(e) => {
                let mut w = self.domain.clone();
                w.append(" (");
                w.append(self.ns_name.as_str());
                w.append(", ");
                w.append(self.ip.as_str());
                w.append("): ");
                w.append(e.as_str());
                let row = NsNetworkRow::failed(
                    self.domain.clone(),
                    self.ns_name.clone(),
                    self.ip.clone(),
                    e,
                );
                proof {
                    lemma_ns_push(idle, row@, true);
                }
                self.record(row, true);
                Some(w)
            },
        }
    }

    /// The rows of a finished run and the number of failed rows.
    pub fn finish(self) -> (out: (Vec<NsNetworkRow>, usize))
        requires
            ns_run_wf(self@),
        ensures
            ns_row_views(out.0@) == self@.rows,
            out.1 == self@.errors,
    {
        (self.rows, self.errors)
    }
}

/// When a run is done, every input entry has at least one row, the rows come
/// in input order and each fits its entry, and the run counts no failure
/// exactly when no row failed.
pub proof fn ns_run_complete(v: NsRunView)
    requires
        ns_run_wf(v),
        v.wait == NsWait::Idle,
        v.ip_next == v.ips.len(),
        v.ns_next == v.nameservers.len(),
        v.next == v.entries.len(),
    ensures
        forall|i: int| 0 <= i < v.entries.len() ==> covered(v, i),
        forall|j: int, k: int| 0 <= j <= k < v.origin.len() ==> v.origin[j] <= v.origin[k],
        forall|k: int|
            0 <= k < v.rows.len() ==> ns_row_fits(v.entries[v.origin[k]], #[trigger] v.rows[k], v.failed[k]),
        v.errors == 0 <==> forall|k: int| 0 <= k < v.rows.len() ==> !#[trigger] v.failed[k],
{
    lemma_count_true(v.failed);
}

/// The addresses of a nameserver object are all its IPv4 addresses, in their
/// listed order, followed by all its IPv6 addresses, in their listed order.
pub proof fn nameserver_addresses_are_v4_then_v6(ns: NameserverInfo)
    ensures
        nameserver_ips_of(ns).len() == ns.ipv4@.len() + ns.ipv6@.len(),
        forall|i: int| 0 <= i < ns.ipv4@.len() ==> nameserver_ips_of(ns)[i] == (#[trigger] ns.ipv4@[i])@,
        forall|j: int|
            0 <= j < ns.ipv6@.len() ==> nameserver_ips_of(ns)[ns.ipv4@.len() + j] == (
            #[trigger] ns.ipv6@[j])@,
{
}

/// After a lookup by name found a nameserver that lists addresses, the run
/// holds exactly every address listed on the found object, its IPv4
/// addresses first and then its IPv6 addresses, each in listed order; none
/// has been taken yet, no row is recorded and no warning is given.
pub proof fn found_nameserver_addresses_are_all_taken(v: NsRunView, found: NameserverInfo)
    requires
        found.ipv4@.len() + found.ipv6@.len() > 0,
    ensures
        ns_after_nameserver(v, Ok::<NameserverInfo, String>(found)).ips.len() == found.ipv4@.len()
            + found.ipv6@.len(),
        forall|i: int|
            0 <= i < found.ipv4@.len() ==> ns_after_nameserver(
                v,
                Ok::<NameserverInfo, String>(found),
            ).ips[i] == (#[trigger] found.ipv4@[i])@,
        forall|j: int|
            0 <= j < found.ipv6@.len() ==> ns_after_nameserver(
                v,
                Ok::<NameserverInfo, String>(found),
            ).ips[found.ipv4@.len() + j] == (#[trigger] found.ipv6@[j])@,
        ns_after_nameserver(v, Ok::<NameserverInfo, String>(found)).ip_next == 0,
        ns_after_nameserver(v, Ok::<NameserverInfo, String>(found)).wait == NsWait::Idle,
        ns_after_nameserver(v, Ok::<NameserverInfo, String>(found)).rows == v.rows,
        ns_nameserver_warning(v, Ok::<NameserverInfo, String>(found)) is None,
{
    nameserver_addresses_are_v4_then_v6(found);
}

/// While the run holds addresses not yet taken, its next step takes the next
/// one and asks for its network, and the outcome of that lookup adds exactly
/// one row, for that address, keeping the addresses still to be taken.
pub proof fn each_address_gets_one_row(u: NsRunView, result: Result<NetworkInfo, String>)
    requires
        u.ip_next < u.ips.len(),
    ensures
        ns_after_step(u).wait == NsWait::Network,
        ns_after_step(u).ip == u.ips[u.ip_next as int],
        ns_after_step(u).ips == u.ips,
        ns_after_step(u).ip_next == u.ip_next + 1,
        ns_after_step(u).rows == u.rows,
        ns_after_network(ns_after_step(u), result).rows.len() == u.rows.len() + 1,
        ns_after_network(ns_after_step(u), result).rows.drop_last() == u.rows,
        ns_after_network(ns_after_step(u), result).rows.last().ip == u.ips[u.ip_next as int],
        ns_after_network(ns_after_step(u), result).ips == u.ips,
        ns_after_network(ns_after_step(u), result).ip_next == u.ip_next + 1,
        ns_after_network(ns_after_step(u), result).wait == NsWait::Idle,
{
    let s = ns_after_step(u);
    assert(ns_after_network(s, result).rows.drop_last() =~= u.rows);
}

} // verus!
