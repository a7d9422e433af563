//! `find-ip-networks`: the report row for each input IP address and the
//! decisions of a run. The caller performs the network lookups that a run
//! asks for and hands their outcome back.

use vstd::prelude::*;
use crate::input::{entry_view, entry_views, InputEntry};
use crate::output::Record;
use crate::rdap::NetworkInfo;
use crate::report::{
    columns_of, count_true, lemma_count_true, no_columns, NetworkColumns, NetworkColumnsView,
};
use crate::text::{join, push_joined, views};

verus! {

/// One output row of `find-ip-networks`.
pub struct IpNetworkRow {
    pub ip: String,
    pub network: NetworkColumns,
    pub error: String,
}

/// The view of an output row.
pub struct IpNetworkRowView {
    pub ip: Seq<char>,
    pub network: NetworkColumnsView,
    pub error: Seq<char>,
}

impl View for IpNetworkRow {
    type V = IpNetworkRowView;

    open spec fn view(&self) -> IpNetworkRowView {
        IpNetworkRowView { ip: self.ip@, network: self.network@, error: self.error@ }
    }
}

/// The row for an address whose network was found.
pub open spec fn found_ip_row(ip: Seq<char>, net: NetworkInfo) -> IpNetworkRowView {
    IpNetworkRowView { ip, network: columns_of(net), error: Seq::empty() }
}

/// The row for an input entry or address that failed with `error`.
pub open spec fn failed_ip_row(ip: Seq<char>, error: Seq<char>) -> IpNetworkRowView {
    IpNetworkRowView { ip, network: no_columns(), error }
}

/// The CSV columns of a row: the CIDR blocks are joined with `|`.
pub open spec fn ip_row_fields(r: IpNetworkRowView) -> Seq<Seq<char>> {
    seq![
        r.ip,
        r.network.handle,
        r.network.network_name,
        r.network.registrant,
        r.network.abuse,
        r.network.administrative,
        r.network.technical,
        r.network.start_address,
        r.network.end_address,
        join(r.network.cidr_blocks, "|"@),
        r.error,
    ]
}

/// Builds a vector of strings from string slices.
pub fn strings_of(items: &[&str]) -> (v: Vec<String>)
    ensures
        v@.len() == items@.len(),
        forall|i: int| 0 <= i < items@.len() ==> (#[trigger] v@[i])@ == items@[i]@,
{
    let mut v: Vec<String> = Vec::new();
    let mut k: usize = 0;
    while k < items.len()
        invariant
            k <= items.len(),
            v@.len() == k,
            forall|i: int| 0 <= i < k ==> (#[trigger] v@[i])@ == items@[i]@,
        decreases items.len() - k,
    {
        v.push(String::from_str(items[k]));
        k += 1;
    }
    v
}

impl IpNetworkRow {
    /// The row for `ip`, whose network is `net`.
    pub fn found(ip: String, net: &NetworkInfo) -> (r: IpNetworkRow)
        ensures
            r@ == found_ip_row(ip@, *net),
    {
        IpNetworkRow { ip, network: NetworkColumns::from_network(net), error: String::new() }
    }

    /// The row for `ip` (empty for an unreadable input row) that failed with `error`.
    pub fn failed(ip: String, error: String) -> (r: IpNetworkRow)
        ensures
            r@ == failed_ip_row(ip@, error@),
    {
        IpNetworkRow { ip, network: NetworkColumns::empty(), error }
    }
}

impl Record for IpNetworkRow {
    open spec fn header_view() -> Seq<Seq<char>> {
        seq![
            "ip"@,
            "handle"@,
            "network_name"@,
            "registrant"@,
            "abuse"@,
            "administrative"@,
            "technical"@,
            "start_address"@,
            "end_address"@,
            "cidr_blocks"@,
            "error"@,
        ]
    }

    open spec fn row_view(&self) -> Seq<Seq<char>> {
        ip_row_fields(self@)
    }

    fn header() -> (h: Vec<String>) {
        let h = strings_of(
            &[
                "ip",
                "handle",
                "network_name",
                "registrant",
                "abuse",
                "administrative",
                "technical",
                "start_address",
                "end_address",
                "cidr_blocks",
                "error",
            ],
        );
        assert(views(h@) =~= Self::header_view());
        h
    }

    fn row(&self) -> (r: Vec<String>) {
        let n = &self.network;
        let mut cidrs = String::new();
        push_joined(&mut cidrs, &n.cidr_blocks, "|");
        let mut r: Vec<String> = Vec::new();
        r.push(self.ip.clone());
        r.push(n.handle.clone());
        r.push(n.network_name.clone());
        r.push(n.registrant.clone());
        r.push(n.abuse.clone());
        r.push(n.administrative.clone());
        r.push(n.technical.clone());
        r.push(n.start_address.clone());
        r.push(n.end_address.clone());
        r.push(cidrs);
        r.push(self.error.clone());
        assert(views(r@) =~= ip_row_fields(self@));
        r
    }
}

/// What a run asks its caller to do next.
pub enum IpStep {
    /// Print this warning; the row for it is already recorded.
    Warn(String),
    /// Look up the network of this address and hand the outcome to
    /// `IpNetworksRun::network_result`.
    LookupNetwork(String),
    /// Every input entry has its row.
    Done,
}

/// The state of a run: the input entries, how many have been taken, the
/// address whose lookup is outstanding, the rows so far, the number of failed
/// rows, and which rows failed.
pub struct IpRunView {
    pub entries: Seq<Result<Seq<char>, Seq<char>>>,
    pub next: nat,
    pub pending: Option<Seq<char>>,
    pub rows: Seq<IpNetworkRowView>,
    pub errors: nat,
    pub failed: Seq<bool>,
}

/// Whether `row` (failed or not, as `failed` says) is the row for `entry`: an
/// unreadable entry gives a failed row with its message and no address; an
/// address gives a row for that address, whose error is empty when it did not
/// fail and whose network columns are empty when it did.
pub open spec fn ip_row_fits(
    entry: Result<Seq<char>, Seq<char>>,
    row: IpNetworkRowView,
    failed: bool,
) -> bool {
    match entry {
        Err(m) => failed && row == failed_ip_row(Seq::empty(), m),
        Ok(ip) => {
            &&& row.ip == ip
            &&& failed ==> row.network == no_columns()
            &&& !failed ==> row.error == Seq::<char>::empty()
        },
    }
}

/// The invariant of a run: one row per entry taken (the pending one aside),
/// each fitting its entry, and `errors` counts the failed rows.
pub open spec fn ip_run_wf(v: IpRunView) -> bool {
    &&& v.next <= v.entries.len()
    &&& v.rows.len() == (if v.pending is Some { v.next - 1 } else { v.next as int })
    &&& v.pending is Some ==> v.next >= 1 && v.entries[v.next - 1] == Ok::<Seq<char>, Seq<char>>(
        v.pending->0,
    )
    &&& v.failed.len() == v.rows.len()
    &&& v.errors == count_true(v.failed)
    &&& forall|k: int|
        0 <= k < v.rows.len() ==> ip_row_fits(v.entries[k], #[trigger] v.rows[k], v.failed[k])
}

/// The state after `next_step`: the next entry is taken; an unreadable one
/// gets its failed row at once, an address becomes the pending lookup.
pub open spec fn ip_after_step(v: IpRunView) -> IpRunView {
    if v.next >= v.entries.len() {
        v
    } else {
        match v.entries[v.next as int] {
            Err(m) => IpRunView {
                next: v.next + 1,
                rows: v.rows.push(failed_ip_row(Seq::empty(), m)),
                errors: v.errors + 1,
                failed: v.failed.push(true),
                ..v
            },
            Ok(ip) => IpRunView { next: v.next + 1, pending: Some(ip), ..v },
        }
    }
}

/// The step that `next_step` returns in state `v`.
pub open spec fn ip_step_is(step: IpStep, v: IpRunView) -> bool {
    if v.next >= v.entries.len() {
        step is Done
    } else {
        match v.entries[v.next as int] {
            Err(m) => step matches IpStep::Warn(w) && w@ == m,
            Ok(ip) => step matches IpStep::LookupNetwork(a) && a@ == ip,
        }
    }
}

/// The state after the pending lookup of `ip` ended with `result`.
pub open spec fn ip_after_network(
    v: IpRunView,
    ip: Seq<char>,
    result: Result<NetworkInfo, String>,
) -> IpRunView {
    match result {
        Ok(net) => IpRunView {
            pending: None,
            rows: v.rows.push(found_ip_row(ip, net)),
            failed: v.failed.push(false),
            ..v
        },
        Err(e) => IpRunView {
            pending: None,
            rows: v.rows.push(failed_ip_row(ip, e@)),
            errors: v.errors + 1,
            failed: v.failed.push(true),
            ..v
        },
    }
}

/// The warning for a failed lookup of `ip`.
pub open spec fn ip_warning(ip: Seq<char>, result: Result<NetworkInfo, String>) -> Option<
    Seq<char>,
> {
    match result {
        Ok(_) => None,
        Err(e) => Some(ip + ": "@ + e@),
    }
}

/// The decisions of a `find-ip-networks` run.
pub struct IpNetworksRun {
    entries: Vec<InputEntry>,
    next: usize,
    pending: Option<String>,
    rows: Vec<IpNetworkRow>,
    errors: usize,
    failed: Ghost<Seq<bool>>,
}

/// The views of a list of rows.
pub open spec fn ip_row_views(rows: Seq<IpNetworkRow>) -> Seq<IpNetworkRowView> {
    rows.map_values(|r: IpNetworkRow| r@)
}

impl View for IpNetworksRun {
    type V = IpRunView;

    closed spec fn view(&self) -> IpRunView {
        IpRunView {
            entries: entry_views(self.entries@),
            next: self.next as nat,
            pending: match self.pending {
                Some(p) => Some(p@),
                None => None,
            },
            rows: ip_row_views(self.rows@),
            errors: self.errors as nat,
            failed: self.failed@,
        }
    }
}

impl IpNetworksRun {
    /// Starts a run over `entries`, read from `input`; refuses an input that
    /// holds no entries.
    pub fn start(entries: Vec<InputEntry>, input: &str) -> (r: Result<IpNetworksRun, String>)
        ensures
            match r {
                Ok(run) => {
                    &&& entries@.len() > 0
                    &&& ip_run_wf(run@)
                    &&& run@.entries == entry_views(entries@)
                    &&& run@.next == 0 && run@.pending is None
                    &&& run@.rows.len() == 0 && run@.errors == 0
                },
                Err(m) => entries@.len() == 0 && m@ == "no items found in "@ + input@,
            },
    {
        if entries.len() == 0 {
            let mut m = String::from_str("no items found in ");
            m.append(input);
            return Err(m);
        }
        let run = IpNetworksRun {
            entries,
            next: 0,
            pending: None,
            rows: Vec::new(),
            errors: 0,
            failed: Ghost(Seq::empty()),
        };
        assert(ip_row_views(run.rows@) =~= Seq::<IpNetworkRowView>::empty());
        Ok(run)
    }

    /// Whether the run waits for the outcome of a lookup.
    pub fn is_waiting(&self) -> (b: bool)
        ensures
            b == self@.pending is Some,
    {
        self.pending.is_some()
    }

    /// Takes the next input entry: an unreadable one is recorded as a failed
    /// row and its message is to be printed; an address is to be looked up.
    pub fn next_step(&mut self) -> (step: IpStep)
        requires
            ip_run_wf(old(self)@),
            old(self)@.pending is None,
        ensures
            ip_run_wf(final(self)@),
            final(self)@ == ip_after_step(old(self)@),
            ip_step_is(step, old(self)@),
    {
        if self.next >= self.entries.len() {
            return IpStep::Done;
        }
        let ghost v = self@;
        proof {
            lemma_count_true(v.failed);
        }
        let k = self.next;
        match &self.entries[k] {
            Err(m) => {
                let msg = m.clone();
                let ghost prev_rows = self.rows@;
                self.rows.push(IpNetworkRow::failed(String::new(), msg.clone()));
                self.errors = self.errors + 1;
                self.failed = Ghost(self.failed@.push(true));
                self.next = k + 1;
                assert(ip_row_views(self.rows@) =~= ip_row_views(prev_rows).push(
                    failed_ip_row(Seq::empty(), msg@),
                ));
                assert(self.failed@.drop_last() =~= v.failed);
                assert(self@ =~= ip_after_step(v));
                assert(forall|j: int|
                    0 <= j < self@.rows.len() - 1 ==> self@.rows[j] == v.rows[j] && self@.failed[j]
                        == v.failed[j]);
                IpStep::Warn(msg)
            },
            Ok(ip) => {
                let addr = ip.clone();
                self.pending = Some(addr.clone());
                self.next = k + 1;
                assert(self@ =~= ip_after_step(v));
                IpStep::LookupNetwork(addr)
            },
        }
    }

    /// Records the outcome of the pending lookup: the row for the address,
    /// and the warning to print when the lookup failed.
    pub fn network_result(&mut self, result: Result<NetworkInfo, String>) -> (warning: Option<
        String,
    >)
        requires
            ip_run_wf(old(self)@),
            old(self)@.pending is Some,
        ensures
            ip_run_wf(final(self)@),
            final(self)@ == ip_after_network(old(self)@, old(self)@.pending->0, result),
            match (warning, ip_warning(old(self)@.pending->0, result)) {
                (Some(w), Some(m)) => w@ == m,
                (None, None) => true,
                _ => false,
            },
    {
        let ghost v = self@;
        proof {
            lemma_count_true(v.failed);
        }
        let ip = match self.pending.take() {
            Some(p) => p,
            None => String::new(),
        };
        let ghost prev_rows = self.rows@;
        match result {
            Ok(net) => {
                self.rows.push(IpNetworkRow::found(ip, &net));
                self.failed = Ghost(self.failed@.push(false));
                assert(ip_row_views(self.rows@) =~= ip_row_views(prev_rows).push(
                    found_ip_row(v.pending->0, net),
                ));
                assert(self.failed@.drop_last() =~= v.failed);
                assert(self@ =~= ip_after_network(v, v.pending->0, Ok(net)));
                assert(forall|j: int|
                    0 <= j < self@.rows.len() - 1 ==> self@.rows[j] == v.rows[j] && self@.failed[j]
                        == v.failed[j]);
                None
            },
            Err(e) => {
                let mut w = ip.clone();
                w.append(": ");
                w.append(e.as_str());
                let ghost ev = e@;
                self.rows.push(IpNetworkRow::failed(ip, e));
                self.errors = self.errors + 1;
                self.failed = Ghost(self.failed@.push(true));
                assert(ip_row_views(self.rows@) =~= ip_row_views(prev_rows).push(
                    failed_ip_row(v.pending->0, ev),
                ));
                assert(self.failed@.drop_last() =~= v.failed);
                assert(forall|j: int|
                    0 <= j < self@.rows.len() - 1 ==> self@.rows[j] == v.rows[j] && self@.failed[j]
                        == v.failed[j]);
                Some(w)
            },
        }
    }

    /// The rows of a finished run, one per input entry in input order, and the
    /// number of failed rows.
    pub fn finish(self) -> (out: (Vec<IpNetworkRow>, usize))
        requires
            ip_run_wf(self@),
            self@.pending is None,
        ensures
            ip_row_views(out.0@) == self@.rows,
            out.1 == self@.errors,
    {
        (self.rows, self.errors)
    }
}

/// A finished run has one row per input entry, each fitting its entry, and
/// it counts no failure exactly when no row failed.
pub proof fn ip_run_complete(v: IpRunView)
    requires
        ip_run_wf(v),
        v.pending is None,
        v.next == v.entries.len(),
    ensures
        v.rows.len() == v.entries.len(),
        forall|k: int|
            0 <= k < v.rows.len() ==> ip_row_fits(v.entries[k], #[trigger] v.rows[k], v.failed[k]),
        v.errors == 0 <==> forall|k: int| 0 <= k < v.rows.len() ==> !#[trigger] v.failed[k],
{
    lemma_count_true(v.failed);
}

} // verus!
