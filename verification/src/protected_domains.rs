//! `find-protected-domains`: whether each input domain is "locked" against
//! malicious modification, and the decisions of a run. A domain is protected
//! when its RDAP `status` values include all of `client delete prohibited`,
//! `client transfer prohibited` and `client update prohibited` (ignoring ASCII
//! case). The caller performs the domain lookups that a run asks for and hands
//! their outcome back.

use vstd::prelude::*;
use crate::input::{entry_views, InputEntry};
use crate::ip_networks::strings_of;
use crate::output::Record;
use crate::rdap::{registrar_name, role_name, DomainInfo};
use crate::report::{count_true, lemma_count_true};
use crate::rdap::extend_strings;
use crate::text::{chars_eq_ignore_case, chars_of, eq_ignore_case, join, push_joined, views};

verus! {

/// Status values every domain must carry to be considered protected.
pub open spec fn required_statuses() -> Seq<Seq<char>> {
    seq![
        "client delete prohibited"@,
        "client transfer prohibited"@,
        "client update prohibited"@,
    ]
}

/// Whether `status` holds `s`, ignoring ASCII case.
pub open spec fn has_status(status: Seq<Seq<char>>, s: Seq<char>) -> bool {
    exists|i: int| 0 <= i < status.len() && eq_ignore_case(#[trigger] status[i], s)
}

/// The values of `required` that `status` lacks, in the order of `required`.
pub open spec fn missing_from(required: Seq<Seq<char>>, status: Seq<Seq<char>>) -> Seq<Seq<char>>
    decreases required.len(),
{
    if required.len() == 0 {
        seq![]
    } else {
        let rest = missing_from(required.drop_last(), status);
        if has_status(status, required.last()) {
            rest
        } else {
            rest.push(required.last())
        }
    }
}

/// Nothing is missing exactly when every required value is present.
pub proof fn lemma_missing_from_empty(required: Seq<Seq<char>>, status: Seq<Seq<char>>)
    ensures
        missing_from(required, status).len() == 0 <==> forall|i: int|
            0 <= i < required.len() ==> has_status(status, #[trigger] required[i]),
    decreases required.len(),
{
    if required.len() > 0 {
        lemma_missing_from_empty(required.drop_last(), status);
        if missing_from(required, status).len() == 0 {
            assert forall|i: int| 0 <= i < required.len() implies has_status(
                status,
                #[trigger] required[i],
            ) by {
                if i < required.len() - 1 {
                    assert(required[i] == required.drop_last()[i]);
                }
            }
        } else if has_status(status, required.last()) {
            let j = choose|j: int|
                0 <= j < required.len() - 1 && !has_status(
                    status,
                    #[trigger] required.drop_last()[j],
                );
            assert(required[j] == required.drop_last()[j]);
        }
    }
}

/// Decides whether `status` holds `s`, ignoring ASCII case.
fn status_has(status: &Vec<String>, s: &Vec<char>) -> (b: bool)
    ensures
        b == has_status(views(status@), s@),
{
    let mut k: usize = 0;
    while k < status.len()
        invariant
            k <= status.len(),
            forall|i: int| 0 <= i < k ==> !eq_ignore_case(#[trigger] views(status@)[i], s@),
        decreases status.len() - k,
    {
        if chars_eq_ignore_case(&chars_of(status[k].as_str()), s) {
            assert(eq_ignore_case(views(status@)[k as int], s@));
            return true;
        }
        k += 1;
    }
    false
}

/// The required status values that `status` lacks (ignoring ASCII case), in
/// the order `client delete`, `client transfer`, `client update prohibited`.
pub fn missing_statuses(status: &Vec<String>) -> (missing: Vec<String>)
    ensures
        views(missing@) == missing_from(required_statuses(), views(status@)),
{
    let required = strings_of(
        &["client delete prohibited", "client transfer prohibited", "client update prohibited"],
    );
    assert(views(required@) =~= required_statuses());
    let mut missing: Vec<String> = Vec::new();
    let mut k: usize = 0;
    while k < required.len()
        invariant
            k <= required.len(),
            views(required@) == required_statuses(),
            views(missing@) == missing_from(required_statuses().take(k as int), views(status@)),
        decreases required.len() - k,
    {
        let r = required[k].clone();
        assert(required_statuses().take(k + 1).drop_last() =~= required_statuses().take(k as int));
        if !status_has(status, &chars_of(r.as_str())) {
            let ghost prev = missing@;
            missing.push(r);
            assert(views(missing@) =~= views(prev).push(required_statuses()[k as int]));
        }
        k += 1;
    }
    assert(required_statuses().take(3) =~= required_statuses());
    missing
}

/// A domain is protected exactly when none of the required status values is
/// missing, that is, when it carries all of them (ignoring ASCII case).
pub proof fn protected_iff_all_required(status: Seq<Seq<char>>)
    ensures
        missing_from(required_statuses(), status).len() == 0 <==> forall|i: int|
            0 <= i < required_statuses().len() ==> has_status(
                status,
                #[trigger] required_statuses()[i],
            ),
{
    lemma_missing_from_empty(required_statuses(), status);
}

/// Every value that `missing_from` reports is one of `required` that no
/// position of `status` equals, ignoring ASCII case.
proof fn lemma_missing_are_absent(required: Seq<Seq<char>>, status: Seq<Seq<char>>, x: Seq<char>)
    requires
        missing_from(required, status).contains(x),
    ensures
        required.contains(x),
        forall|i: int| 0 <= i < status.len() ==> !eq_ignore_case(#[trigger] status[i], x),
    decreases required.len(),
{
    let rest = missing_from(required.drop_last(), status);
    if rest.contains(x) {
        lemma_missing_are_absent(required.drop_last(), status, x);
        let j = choose|j: int| 0 <= j < required.drop_last().len() && required.drop_last()[j] == x;
        assert(required[j] == x);
    } else {
        assert(x == required.last());
        assert(required[required.len() - 1] == x);
    }
}

/// A required status value counts as present when the status value at any
/// position of the list equals it, ignoring ASCII case: it is then not
/// reported missing, and a list that holds all three required values, at any
/// positions, leaves none missing and makes a found domain protected.
pub proof fn status_at_any_position_counts(status: Seq<Seq<char>>, d: DomainInfo, domain: Seq<char>)
    ensures
        forall|i: int, r: int|
            0 <= i < status.len() && 0 <= r < required_statuses().len() && eq_ignore_case(
                #[trigger] status[i],
                #[trigger] required_statuses()[r],
            ) ==> !missing_from(required_statuses(), status).contains(required_statuses()[r]),
        (forall|r: int|
            0 <= r < required_statuses().len() ==> exists|i: int|
                0 <= i < status.len() && eq_ignore_case(
                    #[trigger] status[i],
                    #[trigger] required_statuses()[r],
                )) ==> missing_from(required_statuses(), status).len() == 0,
        (forall|r: int|
            0 <= r < required_statuses().len() ==> exists|i: int|
                0 <= i < d.status@.len() && eq_ignore_case(
                    #[trigger] d.status@[i]@,
                    #[trigger] required_statuses()[r],
                )) ==> {
            &&& found_domain_row(domain, d).protected
            &&& found_domain_row(domain, d).missing_status.len() == 0
        },
{
    assert forall|i: int, r: int|
        0 <= i < status.len() && 0 <= r < required_statuses().len() && eq_ignore_case(
            #[trigger] status[i],
            #[trigger] required_statuses()[r],
        ) implies !missing_from(required_statuses(), status).contains(required_statuses()[r]) by {
        if missing_from(required_statuses(), status).contains(required_statuses()[r]) {
            lemma_missing_are_absent(required_statuses(), status, required_statuses()[r]);
        }
    }
    lemma_all_present_none_missing(status);
    lemma_all_present_none_missing(views(d.status@));
    if forall|r: int|
        0 <= r < required_statuses().len() ==> exists|i: int|
            0 <= i < d.status@.len() && eq_ignore_case(
                #[trigger] d.status@[i]@,
                #[trigger] required_statuses()[r],
            ) {
        assert forall|r: int| 0 <= r < required_statuses().len() implies exists|i: int|
            0 <= i < views(d.status@).len() && eq_ignore_case(
                #[trigger] views(d.status@)[i],
                #[trigger] required_statuses()[r],
            ) by {
            let i = choose|i: int|
                0 <= i < d.status@.len() && eq_ignore_case(
                    #[trigger] d.status@[i]@,
                    #[trigger] required_statuses()[r],
                );
            assert(views(d.status@)[i] == d.status@[i]@);
        }
    }
}

/// A list that holds every required value at some position leaves none missing.
proof fn lemma_all_present_none_missing(status: Seq<Seq<char>>)
    ensures
        (forall|r: int|
            0 <= r < required_statuses().len() ==> exists|i: int|
                0 <= i < status.len() && eq_ignore_case(
                    #[trigger] status[i],
                    #[trigger] required_statuses()[r],
                )) ==> missing_from(required_statuses(), status).len() == 0,
{
    let m = missing_from(required_statuses(), status);
    if (forall|r: int|
        0 <= r < required_statuses().len() ==> exists|i: int|
            0 <= i < status.len() && eq_ignore_case(
                #[trigger] status[i],
                #[trigger] required_statuses()[r],
            )) && m.len() > 0 {
        let x = m[0];
        assert(m.contains(x));
        lemma_missing_are_absent(required_statuses(), status, x);
        let r = choose|r: int| 0 <= r < required_statuses().len() && required_statuses()[r] == x;
        let i = choose|i: int|
            0 <= i < status.len() && eq_ignore_case(
                #[trigger] status[i],
                #[trigger] required_statuses()[r],
            );
        assert(!eq_ignore_case(status[i], x));
    }
}

/// One output row of `find-protected-domains`.
pub struct ProtectedDomainRow {
    pub domain: String,
    pub registrar: String,
    pub protected: bool,
    pub status: Vec<String>,
    pub missing_status: Vec<String>,
    pub error: String,
}

/// The view of an output row.
pub struct ProtectedDomainRowView {
    pub domain: Seq<char>,
    pub registrar: Seq<char>,
    pub protected: bool,
    pub status: Seq<Seq<char>>,
    pub missing_status: Seq<Seq<char>>,
    pub error: Seq<char>,
}

impl View for ProtectedDomainRow {
    type V = ProtectedDomainRowView;

    open spec fn view(&self) -> ProtectedDomainRowView {
        ProtectedDomainRowView {
            domain: self.domain@,
            registrar: self.registrar@,
            protected: self.protected,
            status: views(self.status@),
            missing_status: views(self.missing_status@),
            error: self.error@,
        }
    }
}

/// The row for a domain that was found: its registrar, its status values,
/// the required ones it lacks, and whether it lacks none.
pub open spec fn found_domain_row(domain: Seq<char>, d: DomainInfo) -> ProtectedDomainRowView {
    let missing = missing_from(required_statuses(), views(d.status@));
    ProtectedDomainRowView {
        domain,
        registrar: role_name(d.entities@, "registrar"@, "unknown"@),
        protected: missing.len() == 0,
        status: views(d.status@),
        missing_status: missing,
        error: Seq::empty(),
    }
}

/// The row for an input entry or domain that failed with `error`.
pub open spec fn failed_domain_row(domain: Seq<char>, error: Seq<char>) -> ProtectedDomainRowView {
    ProtectedDomainRowView {
        domain,
        registrar: Seq::empty(),
        protected: false,
        status: Seq::empty(),
        missing_status: Seq::empty(),
        error,
    }
}

/// The text of a boolean, as `bool::to_string` gives it.
pub open spec fn bool_text(b: bool) -> Seq<char> {
    if b {
        "true"@
    } else {
        "false"@
    }
}

/// The CSV columns of a row: the status lists are joined with `; `.
pub open spec fn domain_row_fields(r: ProtectedDomainRowView) -> Seq<Seq<char>> {
    seq![
        r.domain,
        r.registrar,
        bool_text(r.protected),
        join(r.status, "; "@),
        join(r.missing_status, "; "@),
        r.error,
    ]
}

/// Clones a vector of strings.
fn clone_strings(v: &Vec<String>) -> (c: Vec<String>)
    ensures
        views(c@) == views(v@),
{
    let mut c: Vec<String> = Vec::new();
    extend_strings(&mut c, v);
    assert(views(c@) =~= views(v@));
    c
}

impl ProtectedDomainRow {
    /// The row for `domain`, whose RDAP object is `d`.
    pub fn found(domain: String, d: &DomainInfo) -> (r: ProtectedDomainRow)
        ensures
            r@ == found_domain_row(domain@, *d),
    {
        let missing = missing_statuses(&d.status);
        let protected = missing.len() == 0;
        ProtectedDomainRow {
            domain,
            registrar: registrar_name(d),
            protected,
            status: clone_strings(&d.status),
            missing_status: missing,
            error: String::new(),
        }
    }

    /// The row for `domain` (empty for an unreadable input row) that failed with `error`.
    pub fn failed(domain: String, error: String) -> (r: ProtectedDomainRow)
        ensures
            r@ == failed_domain_row(domain@, error@),
    {
        let r = ProtectedDomainRow {
            domain,
            registrar: String::new(),
            protected: false,
            status: Vec::new(),
            missing_status: Vec::new(),
            error,
        };
        assert(views(r.status@) =~= Seq::<Seq<char>>::empty());
        assert(views(r.missing_status@) =~= Seq::<Seq<char>>::empty());
        r
    }
}

impl Record for ProtectedDomainRow {
    open spec fn header_view() -> Seq<Seq<char>> {
        seq!["domain"@, "registrar"@, "protected"@, "status"@, "missing_status"@, "error"@]
    }

    open spec fn row_view(&self) -> Seq<Seq<char>> {
        domain_row_fields(self@)
    }

    fn header() -> (h: Vec<String>) {
        let h = strings_of(
            &["domain", "registrar", "protected", "status", "missing_status", "error"],
        );
        assert(views(h@) =~= Self::header_view());
        h
    }

    fn row(&self) -> (r: Vec<String>) {
        let mut status = String::new();
        push_joined(&mut status, &self.status, "; ");
        let mut missing = String::new();
        push_joined(&mut missing, &self.missing_status, "; ");
        let protected = if self.protected {
            String::from_str("true")
        } else {
            String::from_str("false")
        };
        let mut r: Vec<String> = Vec::new();
        r.push(self.domain.clone());
        r.push(self.registrar.clone());
        r.push(protected);
        r.push(status);
        r.push(missing);
        r.push(self.error.clone());
        assert(views(r@) =~= domain_row_fields(self@));
        r
    }
}

/// What a run asks its caller to do next.
pub enum DomainStep {
    /// Print this warning; the row for it is already recorded.
    Warn(String),
    /// Look up this domain and hand the outcome to
    /// `ProtectedDomainsRun::domain_result`.
    LookupDomain(String),
    /// Every input entry has its row.
    Done,
}

/// The state of a run: the input entries, how many have been taken, the
/// domain whose lookup is outstanding, the rows so far, the number of failed
/// rows, and which rows failed.
pub struct DomainRunView {
    pub entries: Seq<Result<Seq<char>, Seq<char>>>,
    pub next: nat,
    pub pending: Option<Seq<char>>,
    pub rows: Seq<ProtectedDomainRowView>,
    pub errors: nat,
    pub failed: Seq<bool>,
}

/// Whether `row` (failed or not, as `failed` says) is the row for `entry`: an
/// unreadable entry gives a failed row with its message and no domain; a
/// domain gives a row for that domain, whose error is empty when it did not
/// fail, and which is not marked protected when it did.
pub open spec fn domain_row_fits(
    entry: Result<Seq<char>, Seq<char>>,
    row: ProtectedDomainRowView,
    failed: bool,
) -> bool {
    match entry {
        Err(m) => failed && row == failed_domain_row(Seq::empty(), m),
        Ok(domain) => {
            &&& row.domain == domain
            &&& failed ==> row == failed_domain_row(domain, row.error)
            &&& !failed ==> row.error == Seq::<char>::empty() && row.protected == (
            row.missing_status.len() == 0)
        },
    }
}

/// The invariant of a run: one row per entry taken (the pending one aside),
/// each fitting its entry, and `errors` counts the failed rows.
pub open spec fn domain_run_wf(v: DomainRunView) -> bool {
    &&& v.next <= v.entries.len()
    &&& v.rows.len() == (if v.pending is Some { v.next - 1 } else { v.next as int })
    &&& v.pending is Some ==> v.next >= 1 && v.entries[v.next - 1] == Ok::<Seq<char>, Seq<char>>(
        v.pending->0,
    )
    &&& v.failed.len() == v.rows.len()
    &&& v.errors == count_true(v.failed)
    &&& forall|k: int|
        0 <= k < v.rows.len() ==> domain_row_fits(v.entries[k], #[trigger] v.rows[k], v.failed[k])
}

/// The state after `next_step`: the next entry is taken; an unreadable one
/// gets its failed row at once, a domain becomes the pending lookup.
pub open spec fn domain_after_step(v: DomainRunView) -> DomainRunView {
    if v.next >= v.entries.len() {
        v
    } else {
        match v.entries[v.next as int] {
            Err(m) => DomainRunView {
                next: v.next + 1,
                rows: v.rows.push(failed_domain_row(Seq::empty(), m)),
                errors: v.errors + 1,
                failed: v.failed.push(true),
                ..v
            },
            Ok(d) => DomainRunView { next: v.next + 1, pending: Some(d), ..v },
        }
    }
}

/// The step that `next_step` returns in state `v`.
pub open spec fn domain_step_is(step: DomainStep, v: DomainRunView) -> bool {
    if v.next >= v.entries.len() {
        step is Done
    } else {
        match v.entries[v.next as int] {
            Err(m) => step matches DomainStep::Warn(w) && w@ == m,
            Ok(d) => step matches DomainStep::LookupDomain(a) && a@ == d,
        }
    }
}

/// The state after the pending lookup of `domain` ended with `result`.
pub open spec fn domain_after_lookup(
    v: DomainRunView,
    domain: Seq<char>,
    result: Result<DomainInfo, String>,
) -> DomainRunView {
    match result {
        Ok(d) => DomainRunView {
            pending: None,
            rows: v.rows.push(found_domain_row(domain, d)),
            failed: v.failed.push(false),
            ..v
        },
        Err(e) => DomainRunView {
            pending: None,
            rows: v.rows.push(failed_domain_row(domain, e@)),
            errors: v.errors + 1,
            failed: v.failed.push(true),
            ..v
        },
    }
}

/// The warning for a failed lookup of `domain`.
pub open spec fn domain_warning(domain: Seq<char>, result: Result<DomainInfo, String>) -> Option<
    Seq<char>,
> {
    match result {
        Ok(_) => None,
        Err(e) => Some(domain + ": "@ + e@),
    }
}

/// The views of a list of rows.
pub open spec fn domain_row_views(rows: Seq<ProtectedDomainRow>) -> Seq<ProtectedDomainRowView> {
    rows.map_values(|r: ProtectedDomainRow| r@)
}

/// The decisions of a `find-protected-domains` run.
pub struct ProtectedDomainsRun {
    entries: Vec<InputEntry>,
    next: usize,
    pending: Option<String>,
    rows: Vec<ProtectedDomainRow>,
    errors: usize,
    failed: Ghost<Seq<bool>>,
}

impl View for ProtectedDomainsRun {
    type V = DomainRunView;

    closed spec fn view(&self) -> DomainRunView {
        DomainRunView {
            entries: entry_views(self.entries@),
            next: self.next as nat,
            pending: match self.pending {
                Some(p) => Some(p@),
                None => None,
            },
            rows: domain_row_views(self.rows@),
            errors: self.errors as nat,
            failed: self.failed@,
        }
    }
}

impl ProtectedDomainsRun {
    /// Starts a run over `entries`, read from `input`; refuses an input that
    /// holds no entries.
    pub fn start(entries: Vec<InputEntry>, input: &str) -> (r: Result<ProtectedDomainsRun, String>)
        ensures
            match r {
                Ok(run) => {
                    &&& entries@.len() > 0
                    &&& domain_run_wf(run@)
                    &&& run@.entries == entry_views(entries@)
                    &&& run@.next == 0 && run@.pending is None
                    &&& run@.rows.len() == 0 && run@.errors == 0
                },
                Err(m) => entries@.len() == 0 && m@ == "no items found in "@ + input@,
            },
    {
        if entries.len() == 0 {
            let mut m = String::from_str("no items found in ");
            m.append(input);
            return Err(m);
        }
        let run = ProtectedDomainsRun {
            entries,
            next: 0,
            pending: None,
            rows: Vec::new(),
            errors: 0,
            failed: Ghost(Seq::empty()),
        };
        assert(domain_row_views(run.rows@) =~= Seq::<ProtectedDomainRowView>::empty());
        Ok(run)
    }

    /// Whether the run waits for the outcome of a lookup.
    pub fn is_waiting(&self) -> (b: bool)
        ensures
            b == self@.pending is Some,
    {
        self.pending.is_some()
    }

    /// Takes the next input entry: an unreadable one is recorded as a failed
    /// row and its message is to be printed; a domain is to be looked up.
    pub fn next_step(&mut self) -> (step: DomainStep)
        requires
            domain_run_wf(old(self)@),
            old(self)@.pending is None,
        ensures
            domain_run_wf(final(self)@),
            final(self)@ == domain_after_step(old(self)@),
            domain_step_is(step, old(self)@),
    {
        if self.next >= self.entries.len() {
            return DomainStep::Done;
        }
        let ghost v = self@;
        proof {
            lemma_count_true(v.failed);
        }
        let k = self.next;
        match &self.entries[k] {
            Err(m) => {
                let msg = m.clone();
                let ghost prev_rows = self.rows@;
                self.rows.push(ProtectedDomainRow::failed(String::new(), msg.clone()));
                self.errors = self.errors + 1;
                self.failed = Ghost(self.failed@.push(true));
                self.next = k + 1;
                assert(domain_row_views(self.rows@) =~= domain_row_views(prev_rows).push(
                    failed_domain_row(Seq::empty(), msg@),
                ));
                assert(self.failed@.drop_last() =~= v.failed);
                assert(self@ =~= domain_after_step(v));
                assert(forall|j: int|
                    0 <= j < self@.rows.len() - 1 ==> self@.rows[j] == v.rows[j] && self@.failed[j]
                        == v.failed[j]);
                DomainStep::Warn(msg)
            },
            Ok(d) => {
                let name = d.clone();
                self.pending = Some(name.clone());
                self.next = k + 1;
                assert(self@ =~= domain_after_step(v));
                DomainStep::LookupDomain(name)
            },
        }
    }

    /// Records the outcome of the pending lookup: the row for the domain, and
    /// the warning to print when the lookup failed.
    pub fn domain_result(&mut self, result: Result<DomainInfo, String>) -> (warning: Option<String>)
        requires
            domain_run_wf(old(self)@),
            old(self)@.pending is Some,
        ensures
            domain_run_wf(final(self)@),
            final(self)@ == domain_after_lookup(old(self)@, old(self)@.pending->0, result),
            match (warning, domain_warning(old(self)@.pending->0, result)) {
                (Some(w), Some(m)) => w@ == m,
                (None, None) => true,
                _ => false,
            },
    {
        let ghost v = self@;
        proof {
            lemma_count_true(v.failed);
        }
        let domain = match self.pending.take() {
            Some(p) => p,
            None => String::new(),
        };
        let ghost prev_rows = self.rows@;
        match result {
            Ok(d) => {
                self.rows.push(ProtectedDomainRow::found(domain, &d));
                self.failed = Ghost(self.failed@.push(false));
                assert(domain_row_views(self.rows@) =~= domain_row_views(prev_rows).push(
                    found_domain_row(v.pending->0, d),
                ));
                assert(self.failed@.drop_last() =~= v.failed);
                assert(self@ =~= domain_after_lookup(v, v.pending->0, Ok(d)));
                assert(forall|j: int|
                    0 <= j < self@.rows.len() - 1 ==> self@.rows[j] == v.rows[j] && self@.failed[j]
                        == v.failed[j]);
                None
            },
            Err(e) => {
                let mut w = domain.clone();
                w.append(": ");
                w.append(e.as_str());
                let ghost ev = e@;
                self.rows.push(ProtectedDomainRow::failed(domain, e));
                self.errors = self.errors + 1;
                self.failed = Ghost(self.failed@.push(true));
                assert(domain_row_views(self.rows@) =~= domain_row_views(prev_rows).push(
                    failed_domain_row(v.pending->0, ev),
                ));
                assert(self.failed@.drop_last() =~= v.failed);
                assert(forall|j: int|
                    0 <= j < self@.rows.len() - 1 ==> self@.rows[j] == v.rows[j] && self@.failed[j]
                        == v.failed[j]);
                Some(w)
            },
        }
    }

    /// The rows of a finished run, one per input entry in input order, and the
    /// number of failed rows.
    pub fn finish(self) -> (out: (Vec<ProtectedDomainRow>, usize))
        requires
            domain_run_wf(self@),
            self@.pending is None,
        ensures
            domain_row_views(out.0@) == self@.rows,
            out.1 == self@.errors,
    {
        (self.rows, self.errors)
    }
}

/// A finished run has one row per input entry, each fitting its entry, and
/// it counts no failure exactly when no row failed.
pub proof fn domain_run_complete(v: DomainRunView)
    requires
        domain_run_wf(v),
        v.pending is None,
        v.next == v.entries.len(),
    ensures
        v.rows.len() == v.entries.len(),
        forall|k: int|
            0 <= k < v.rows.len() ==> domain_row_fits(v.entries[k], #[trigger] v.rows[k], v.failed[k]),
        v.errors == 0 <==> forall|k: int| 0 <= k < v.rows.len() ==> !#[trigger] v.failed[k],
{
    lemma_count_true(v.failed);
}

} // verus!
