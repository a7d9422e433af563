//! The parts of RDAP answers that the tools read, held as plain values, and
//! the rules that turn them into report columns and messages: display names,
//! IP address lists, contact names by role, CIDR blocks, and the wording of
//! lookup failures.

use vstd::prelude::*;
use crate::text::{
    chars_eq_ignore_case, chars_of, decimal, eq_ignore_case, push_decimal, views,
};

verus! {

/// An entity (contact) attached to an RDAP object.
pub struct EntityInfo {
    /// The entity's roles (`registrar`, `registrant`, `abuse`, ...).
    pub roles: Vec<String>,
    /// The full name from the entity's contact card, if any.
    pub full_name: Option<String>,
    /// The first organization name from the entity's contact card, if any.
    pub organization_name: Option<String>,
}

/// A nameserver object.
pub struct NameserverInfo {
    /// The `ldhName`, if present.
    pub ldh_name: Option<String>,
    /// The `unicodeName`, if present.
    pub unicode_name: Option<String>,
    /// The listed IPv4 addresses (empty when none are listed).
    pub ipv4: Vec<String>,
    /// The listed IPv6 addresses (empty when none are listed).
    pub ipv6: Vec<String>,
}

/// One entry of the RIR `cidr0_cidrs` extension of an IP network.
pub struct CidrInfo {
    /// The `v4prefix` or `v6prefix`, if present.
    pub prefix: Option<String>,
    /// The prefix `length`, if present.
    pub length: Option<u8>,
}

/// An IP network object.
pub struct NetworkInfo {
    pub handle: Option<String>,
    pub name: Option<String>,
    pub start_address: Option<String>,
    pub end_address: Option<String>,
    pub entities: Vec<EntityInfo>,
    /// The `cidr0_cidrs` entries (empty when the extension is absent).
    pub cidrs: Vec<CidrInfo>,
}

/// A domain object.
pub struct DomainInfo {
    /// The `status` values.
    pub status: Vec<String>,
    pub entities: Vec<EntityInfo>,
    /// The listed nameservers (empty when none are listed).
    pub nameservers: Vec<NameserverInfo>,
}

/// The view of an optional string.
pub open spec fn opt_view(o: Option<String>) -> Option<Seq<char>> {
    match o {
        Some(s) => Some(s@),
        None => None,
    }
}

/// The string in `o`, or the empty string.
pub open spec fn or_empty(o: Option<String>) -> Seq<char> {
    match o {
        Some(s) => s@,
        None => Seq::empty(),
    }
}

/// The string in `o`, or the empty string.
pub fn string_or_empty(o: &Option<String>) -> (s: String)
    ensures
        s@ == or_empty(*o),
{
    match o {
        Some(v) => v.clone(),
        None => String::new(),
    }
}

/// The display name of a nameserver: `ldhName`, falling back to `unicodeName`,
/// else empty.
pub open spec fn nameserver_name_of(ns: NameserverInfo) -> Seq<char> {
    match ns.ldh_name {
        Some(n) => n@,
        None => or_empty(ns.unicode_name),
    }
}

/// The IP addresses of a nameserver: the IPv4 ones, then the IPv6 ones.
pub open spec fn nameserver_ips_of(ns: NameserverInfo) -> Seq<Seq<char>> {
    views(ns.ipv4@) + views(ns.ipv6@)
}

/// The display name of a nameserver (`ldhName`, falling back to `unicodeName`).
pub fn nameserver_name(ns: &NameserverInfo) -> (name: String)
    ensures
        name@ == nameserver_name_of(*ns),
{
    match &ns.ldh_name {
        Some(n) => n.clone(),
        None => string_or_empty(&ns.unicode_name),
    }
}

/// Appends clones of all of `items` to `out`.
pub fn extend_strings(out: &mut Vec<String>, items: &Vec<String>)
    ensures
        views(final(out)@) == views(old(out)@) + views(items@),
{
    let mut k: usize = 0;
    while k < items.len()
        invariant
            k <= items.len(),
            views(out@) == views(old(out)@) + views(items@).take(k as int),
        decreases items.len() - k,
    {
        let ghost prev = out@;
        let item = items[k].clone();
        out.push(item);
        assert(views(out@) =~= views(prev).push(item@));
        assert(views(items@).take(k + 1) =~= views(items@).take(k as int).push(item@));
        k += 1;
    }
    assert(views(items@).take(items.len() as int) =~= views(items@));
}

/// All IP addresses (v4, then v6) listed on a nameserver object.
pub fn nameserver_ips(ns: &NameserverInfo) -> (ips: Vec<String>)
    ensures
        views(ips@) == nameserver_ips_of(*ns),
{
    let mut ips: Vec<String> = Vec::new();
    extend_strings(&mut ips, &ns.ipv4);
    extend_strings(&mut ips, &ns.ipv6);
    assert(views(ips@) =~= nameserver_ips_of(*ns));
    ips
}

/// Whether an entity has `role` among its roles, ignoring ASCII case.
pub open spec fn has_role(e: EntityInfo, role: Seq<char>) -> bool {
    exists|i: int| 0 <= i < e.roles@.len() && eq_ignore_case(#[trigger] e.roles@[i]@, role)
}

/// Whether `p` is the first entity of `es` with `role`.
pub open spec fn is_first_with_role(es: Seq<EntityInfo>, role: Seq<char>, p: int) -> bool {
    &&& 0 <= p < es.len()
    &&& has_role(es[p], role)
    &&& forall|j: int| 0 <= j < p ==> !has_role(#[trigger] es[j], role)
}

/// The first entity of `es` with `role`, if any.
pub open spec fn role_holder(es: Seq<EntityInfo>, role: Seq<char>) -> Option<int> {
    if exists|p: int| is_first_with_role(es, role, p) {
        Some(choose|p: int| is_first_with_role(es, role, p))
    } else {
        None
    }
}

/// The name on an entity's contact card: the full name, falling back to the
/// organization name.
pub open spec fn contact_name(e: EntityInfo) -> Option<Seq<char>> {
    match e.full_name {
        Some(n) => Some(n@),
        None => opt_view(e.organization_name),
    }
}

/// The name of the first entity with `role`, or `default` when there is no
/// such entity or it has no name.
pub open spec fn role_name(es: Seq<EntityInfo>, role: Seq<char>, default: Seq<char>) -> Seq<char> {
    match role_holder(es, role) {
        Some(p) => match contact_name(es[p]) {
            Some(n) => n,
            None => default,
        },
        None => default,
    }
}

/// Decides whether `e` has `role` (ignoring ASCII case).
fn entity_has_role(e: &EntityInfo, role: &Vec<char>) -> (b: bool)
    ensures
        b == has_role(*e, role@),
{
    let mut k: usize = 0;
    while k < e.roles.len()
        invariant
            k <= e.roles.len(),
            forall|i: int| 0 <= i < k ==> !eq_ignore_case(#[trigger] e.roles@[i]@, role@),
        decreases e.roles.len() - k,
    {
        if chars_eq_ignore_case(&chars_of(e.roles[k].as_str()), role) {
            return true;
        }
        k += 1;
    }
    false
}

/// The index of the first entity with `role`, if any.
fn find_role_holder(es: &Vec<EntityInfo>, role: &Vec<char>) -> (r: Option<usize>)
    ensures
        match r {
            Some(p) => role_holder(es@, role@) == Some(p as int),
            None => role_holder(es@, role@) is None,
        },
{
    let mut k: usize = 0;
    while k < es.len()
        invariant
            k <= es.len(),
            forall|j: int| 0 <= j < k ==> !has_role(#[trigger] es@[j], role@),
        decreases es.len() - k,
    {
        if entity_has_role(&es[k], role) {
            proof {
                assert(is_first_with_role(es@, role@, k as int));
                let q = choose|q: int| is_first_with_role(es@, role@, q);
                if q < k {
                    assert(!has_role(es@[q], role@));
                }
                if k < q {
                    assert(!has_role(es@[k as int], role@));
                }
            }
            return Some(k);
        }
        k += 1;
    }
    proof {
        assert forall|p: int| !is_first_with_role(es@, role@, p) by {
            if 0 <= p < es.len() {
                assert(!has_role(es@[p], role@));
            }
        }
    }
    None
}

/// The name of the first entity with `role`, or `default`.
fn name_by_role(es: &Vec<EntityInfo>, role: &str, default: &str) -> (name: String)
    ensures
        name@ == role_name(es@, role@, default@),
{
    match find_role_holder(es, &chars_of(role)) {
        Some(p) => match &es[p].full_name {
            Some(n) => n.clone(),
            None => match &es[p].organization_name {
                Some(o) => o.clone(),
                None => String::from_str(default),
            },
        },
        None => String::from_str(default),
    }
}

/// The registrar name of a domain: the first entity with the `registrar` role,
/// preferring its full name and falling back to its organization name;
/// `unknown` when there is neither such an entity nor a name on it.
pub fn registrar_name(domain: &DomainInfo) -> (name: String)
    ensures
        name@ == role_name(domain.entities@, "registrar"@, "unknown"@),
{
    name_by_role(&domain.entities, "registrar", "unknown")
}

/// The name of the first entity with `role` (ignoring ASCII case), preferring
/// its full name and falling back to its organization name; empty when not
/// reported.
pub fn entity_name(entities: &Vec<EntityInfo>, role: &str) -> (name: String)
    ensures
        name@ == role_name(entities@, role@, Seq::empty()),
{
    let name = name_by_role(entities, role, "");
    proof {
        reveal_strlit("");
    }
    name
}

/// The name of a network's registrant (empty when not reported).
pub fn registrant_name(net: &NetworkInfo) -> (name: String)
    ensures
        name@ == role_name(net.entities@, "registrant"@, Seq::empty()),
{
    entity_name(&net.entities, "registrant")
}

/// The text of a CIDR block, `prefix/length`, when both parts are given.
pub open spec fn cidr_text(c: CidrInfo) -> Option<Seq<char>> {
    match (c.prefix, c.length) {
        (Some(p), Some(l)) => Some(p@ + "/"@ + decimal(l as nat)),
        _ => None,
    }
}

/// The texts of the complete CIDR blocks among `cs`, in order.
pub open spec fn cidr_texts(cs: Seq<CidrInfo>) -> Seq<Seq<char>>
    decreases cs.len(),
{
    if cs.len() == 0 {
        seq![]
    } else {
        let rest = cidr_texts(cs.drop_last());
        match cidr_text(cs.last()) {
            Some(t) => rest.push(t),
            None => rest,
        }
    }
}

/// All CIDR blocks of a network from the RIR `cidr0_cidrs` extension, as
/// `prefix/length` (empty if the extension is absent). Entries that lack the
/// prefix or the length are left out.
pub fn cidr_blocks(net: &NetworkInfo) -> (blocks: Vec<String>)
    ensures
        views(blocks@) == cidr_texts(net.cidrs@),
{
    let mut blocks: Vec<String> = Vec::new();
    let mut k: usize = 0;
    while k < net.cidrs.len()
        invariant
            k <= net.cidrs.len(),
            views(blocks@) == cidr_texts(net.cidrs@.take(k as int)),
        decreases net.cidrs.len() - k,
    {
        let c = &net.cidrs[k];
        assert(net.cidrs@.take(k + 1).drop_last() =~= net.cidrs@.take(k as int));
        match (&c.prefix, &c.length) {
            (Some(p), Some(l)) => {
                let mut t = p.clone();
                t.append("/");
                push_decimal(&mut t, *l as u128);
                let ghost prev = blocks@;
                let ghost tv = t@;
                blocks.push(t);
                assert(views(blocks@) =~= views(prev).push(tv));
            },
            _ => {},
        }
        k += 1;
    }
    assert(net.cidrs@.take(net.cidrs.len() as int) =~= net.cidrs@);
    blocks
}

/// A failed RDAP lookup, as far as its message depends on it.
pub enum LookupFailure {
    /// No bootstrap entry covers the queried item.
    BootstrapUnavailable,
    /// The server answered with something that could not be parsed.
    Unparsable { status: u16, host: String },
    /// Any other client error, by its own message.
    Other(String),
}

/// The message for a failed lookup.
pub open spec fn failure_message(e: LookupFailure) -> Seq<char> {
    match e {
        LookupFailure::BootstrapUnavailable => "no bootstrap entry available (unknown RIR or registry)"@,
        LookupFailure::Unparsable { status, host } => "RDAP response could not be parsed (HTTP "@
            + decimal(status as nat) + " from "@ + host@ + ")"@,
        LookupFailure::Other(m) => m@,
    }
}

/// Converts a client error into a concise, human-readable message.
pub fn describe_error(e: &LookupFailure) -> (msg: String)
    ensures
        msg@ == failure_message(*e),
{
    match e {
        LookupFailure::BootstrapUnavailable => String::from_str(
            "no bootstrap entry available (unknown RIR or registry)",
        ),
        LookupFailure::Unparsable { status, host } => {
            let mut msg = String::from_str("RDAP response could not be parsed (HTTP ");
            push_decimal(&mut msg, *status as u128);
            msg.append(" from ");
            msg.append(host.as_str());
            msg.append(")");
            msg
        },
        LookupFailure::Other(m) => m.clone(),
    }
}

/// An RFC 9083 error document returned in place of the expected object.
pub struct ErrorDocument {
    pub code: u16,
    pub title: Option<String>,
}

/// The message for an answer of the wrong kind: an error document by its code
/// (and title, when it has a non-empty one), anything else as unexpected.
pub open spec fn unexpected_message(item: Seq<char>, error: Option<ErrorDocument>) -> Seq<char> {
    match error {
        Some(doc) => {
            let title = or_empty(doc.title);
            if title.len() == 0 {
                "RDAP server returned error "@ + decimal(doc.code as nat)
            } else {
                "RDAP server returned error "@ + decimal(doc.code as nat) + ": "@ + title
            }
        },
        None => "unexpected RDAP response for '"@ + item + "'"@,
    }
}

/// Formats an answer of the wrong kind. Note that RFC 9083 error documents
/// (e.g. HTTP 404) arrive as a parsed error document, not as a failure.
pub fn unexpected(item: &str, error: &Option<ErrorDocument>) -> (msg: String)
    ensures
        msg@ == unexpected_message(item@, *error),
{
    match error {
        Some(doc) => {
            let title = string_or_empty(&doc.title);
            let mut msg = String::from_str("RDAP server returned error ");
            push_decimal(&mut msg, doc.code as u128);
            if title.as_str().is_empty() {
                msg
            } else {
                msg.append(": ");
                msg.append(title.as_str());
                msg
            }
        },
        None => {
            let mut msg = String::from_str("unexpected RDAP response for '");
            msg.append(item);
            msg.append("'");
            msg
        },
    }
}

} // verus!
